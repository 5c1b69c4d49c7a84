//! The attendance state machine: a guest is out (no open event) or in (one
//! open event), and check-in and check-out move it between the two.
//!
//! Each transition is defined on the model of the store by a spec function
//! ([`check_in_model`], [`check_out_model`]); the executable functions are
//! proved to compute exactly that, and the laws of the machine are proved of
//! the spec functions.

use vstd::prelude::*;
use crate::store::{EventView, GuestStore, CheckinEvent, StoreError, StoreView, text_view};

verus! {

/// How a check-in or a check-out ended.
#[derive(Debug, Clone, Copy, PartialEq, Eq, Structural)]
pub enum ToggleStatus {
    CheckedIn,
    CheckedOut,
    AlreadyIn,
    NotCheckedIn,
    NeverCheckedIn,
}

/// The inverse of a change: which event to touch, and how.
///
/// `CheckIn` and `ForcedCheckOut` both delete the event that the change
/// created; they stay apart because the first removes an open visit and the
/// second a fabricated, closed one.
#[derive(Debug, Clone, Copy, PartialEq, Eq, Structural)]
pub enum UndoAction {
    CheckIn { checkin_id: i64 },
    CheckOut { checkin_id: i64 },
    ForcedCheckOut { checkin_id: i64 },
}

/// What a transition reports: its status and, where the store changed, the
/// action that takes the change back.
#[derive(Debug, Clone, Copy, PartialEq, Eq, Structural)]
pub struct ToggleOutcome {
    pub status: ToggleStatus,
    pub undo: Option<UndoAction>,
}

/// The position of the open event of a present guest.
pub open spec fn open_index(s: StoreView, guest_id: i64) -> int {
    choose|i: int| s.open_at(guest_id, i)
}

/// Why the store takes no new event for the guest, if it does not.
pub open spec fn insert_refused(s: StoreView, guest_id: i64) -> Option<StoreError> {
    if !s.has_guest(guest_id) {
        Some(StoreError::UnknownGuest)
    } else if s.next_event_id >= i64::MAX {
        Some(StoreError::IdsExhausted)
    } else {
        None
    }
}

/// The store with one more event, which takes the next identity number.
pub open spec fn with_event(
    s: StoreView,
    guest_id: i64,
    in_ts: Seq<char>,
    out_ts: Option<Seq<char>>,
    in_by: Option<Seq<char>>,
    out_by: Option<Seq<char>>,
) -> StoreView {
    StoreView {
        events: s.events.push(
            EventView { id: s.next_event_id as i64, guest_id, in_ts, out_ts, in_by, out_by },
        ),
        next_event_id: s.next_event_id + 1,
        ..s
    }
}

/// Recording an event as a function of the store: the store after it, and
/// the identity number given or the refusal.
pub open spec fn insert_event_model(
    s: StoreView,
    guest_id: i64,
    in_ts: Seq<char>,
    out_ts: Option<Seq<char>>,
    in_by: Option<Seq<char>>,
    out_by: Option<Seq<char>>,
) -> (StoreView, Result<i64, StoreError>) {
    match insert_refused(s, guest_id) {
        Some(refusal) => (s, Err(refusal)),
        None => (
            with_event(s, guest_id, in_ts, out_ts, in_by, out_by),
            Ok(s.next_event_id as i64),
        ),
    }
}

/// The store with the event at `i` closed at `now` by `operator`.
pub open spec fn with_closed(
    s: StoreView,
    i: int,
    now: Seq<char>,
    operator: Option<Seq<char>>,
) -> StoreView {
    StoreView {
        events: s.events.update(
            i,
            EventView { out_ts: Some(now), out_by: operator, ..s.events[i] },
        ),
        ..s
    }
}

/// Check-in as a function of the store: the store after it, and what it
/// reports.
pub open spec fn check_in_model(
    s: StoreView,
    guest_id: i64,
    operator: Option<Seq<char>>,
    now: Seq<char>,
) -> (StoreView, Result<ToggleOutcome, StoreError>) {
    if s.is_present(guest_id) {
        (s, Ok(ToggleOutcome { status: ToggleStatus::AlreadyIn, undo: None }))
    } else if let Some(refusal) = insert_refused(s, guest_id) {
        (s, Err(refusal))
    } else {
        (
            with_event(s, guest_id, now, None, operator, None),
            Ok(
                ToggleOutcome {
                    status: ToggleStatus::CheckedIn,
                    undo: Some(UndoAction::CheckIn { checkin_id: s.next_event_id as i64 }),
                },
            ),
        )
    }
}

/// Check-out as a function of the store: the store after it, and what it
/// reports.
pub open spec fn check_out_model(
    s: StoreView,
    guest_id: i64,
    operator: Option<Seq<char>>,
    force: bool,
    now: Seq<char>,
) -> (StoreView, Result<ToggleOutcome, StoreError>) {
    if s.is_present(guest_id) {
        let i = open_index(s, guest_id);
        (
            with_closed(s, i, now, operator),
            Ok(
                ToggleOutcome {
                    status: ToggleStatus::CheckedOut,
                    undo: Some(UndoAction::CheckOut { checkin_id: s.events[i].id }),
                },
            ),
        )
    } else if !force {
        (
            s,
            Ok(
                ToggleOutcome {
                    status: if s.has_history(guest_id) {
                        ToggleStatus::NotCheckedIn
                    } else {
                        ToggleStatus::NeverCheckedIn
                    },
                    undo: None,
                },
            ),
        )
    } else if let Some(refusal) = insert_refused(s, guest_id) {
        (s, Err(refusal))
    } else {
        (
            with_event(s, guest_id, now, Some(now), operator, operator),
            Ok(
                ToggleOutcome {
                    status: ToggleStatus::CheckedOut,
                    undo: Some(UndoAction::ForcedCheckOut { checkin_id: s.next_event_id as i64 }),
                },
            ),
        )
    }
}

/// A copy of an optional text.
pub fn clone_text(text: &Option<String>) -> (out: Option<String>)
    ensures
        out == *text,
{
    match text {
        Some(s) => Some(s.clone()),
        None => None,
    }
}

impl GuestStore {
    /// Whether the store holds a guest with this identity number.
    pub fn has_guest(&self, guest_id: i64) -> (found: bool)
        ensures
            found == self@.has_guest(guest_id),
    {
        let mut i: usize = 0;
        while i < self.guests.len()
            invariant
                i <= self.guests.len(),
                forall|k: int| 0 <= k < i ==> self@.guests[k].id != guest_id,
            decreases self.guests.len() - i,
        {
            if self.guests[i].id == guest_id {
                assert(self@.guests[i as int].id == guest_id);
                return true;
            }
            i += 1;
        }
        false
    }

    /// The position of the open event of the guest, if it is present.
    pub fn find_open(&self, guest_id: i64) -> (found: Option<usize>)
        ensures
            found is Some <==> self@.is_present(guest_id),
            found matches Some(i) ==> self@.open_at(guest_id, i as int),
    {
        let mut i: usize = 0;
        while i < self.events.len()
            invariant
                i <= self.events.len(),
                forall|k: int| 0 <= k < i ==> !self@.open_at(guest_id, k),
            decreases self.events.len() - i,
        {
            if self.events[i].guest_id == guest_id && self.events[i].out_ts.is_none() {
                assert(self@.open_at(guest_id, i as int));
                return Some(i);
            }
            i += 1;
        }
        None
    }

    /// Whether the guest is present.
    pub fn is_present(&self, guest_id: i64) -> (present: bool)
        ensures
            present == self@.is_present(guest_id),
    {
        self.find_open(guest_id).is_some()
    }

    /// Whether the guest has any event, open or closed.
    pub fn has_history(&self, guest_id: i64) -> (found: bool)
        ensures
            found == self@.has_history(guest_id),
    {
        let mut i: usize = 0;
        while i < self.events.len()
            invariant
                i <= self.events.len(),
                forall|k: int| 0 <= k < i ==> self@.events[k].guest_id != guest_id,
            decreases self.events.len() - i,
        {
            if self.events[i].guest_id == guest_id {
                assert(self@.events[i as int].guest_id == guest_id);
                return true;
            }
            i += 1;
        }
        false
    }

    /// Records one more event for the guest, under the next identity
    /// number, which is returned.
    pub(crate) fn insert_event(
        &mut self,
        guest_id: i64,
        in_ts: String,
        out_ts: Option<String>,
        in_by: Option<String>,
        out_by: Option<String>,
    ) -> (out: Result<i64, StoreError>)
        requires
            old(self)@.wf(),
            out_ts is None ==> out_by is None && !old(self)@.is_present(guest_id),
        ensures
            final(self)@.wf(),
            final(self)@ == insert_event_model(
                old(self)@,
                guest_id,
                in_ts@,
                text_view(out_ts),
                text_view(in_by),
                text_view(out_by),
            ).0,
            out == insert_event_model(
                old(self)@,
                guest_id,
                in_ts@,
                text_view(out_ts),
                text_view(in_by),
                text_view(out_by),
            ).1,
    {
        if !self.has_guest(guest_id) {
            return Err(StoreError::UnknownGuest);
        }
        if self.next_event_id >= i64::MAX {
            return Err(StoreError::IdsExhausted);
        }
        let id = self.next_event_id;
        let ghost before = self@;
        let event = CheckinEvent { id, guest_id, in_ts, out_ts, in_by, out_by };
        self.events.push(event);
        self.next_event_id = id + 1;
        proof {
            let after = with_event(
                before,
                guest_id,
                in_ts@,
                text_view(out_ts),
                text_view(in_by),
                text_view(out_by),
            );
            assert(self@.events =~= after.events);
            assert(self@.guests =~= after.guests);
            lemma_with_event_wf(
                before,
                guest_id,
                in_ts@,
                text_view(out_ts),
                text_view(in_by),
                text_view(out_by),
            );
        }
        Ok(id)
    }
}

/// Adding an event keeps the rules of the store, when the guest is known,
/// an identity number is left, and an open event is added only for a guest
/// that is out.
pub proof fn lemma_with_event_wf(
    s: StoreView,
    guest_id: i64,
    in_ts: Seq<char>,
    out_ts: Option<Seq<char>>,
    in_by: Option<Seq<char>>,
    out_by: Option<Seq<char>>,
)
    requires
        s.wf(),
        insert_refused(s, guest_id) is None,
        out_ts is None ==> out_by is None && !s.is_present(guest_id),
    ensures
        with_event(s, guest_id, in_ts, out_ts, in_by, out_by).wf(),
{
    let t = with_event(s, guest_id, in_ts, out_ts, in_by, out_by);
    let n = s.events.len() as int;
    assert forall|i: int| 0 <= i < t.events.len() implies t.has_guest(
        (#[trigger] t.events[i]).guest_id,
    ) by {
        if i < n {
            assert(t.events[i] == s.events[i]);
            assert(s.has_guest(s.events[i].guest_id));
        }
    }
    assert forall|g: i64, i: int, j: int| #[trigger]
        t.open_at(g, i) && #[trigger] t.open_at(g, j) implies i == j by {
        if i < n && j < n {
            assert(s.open_at(g, i) && s.open_at(g, j));
        } else if i < n {
            assert(s.open_at(g, i));
        } else if j < n {
            assert(s.open_at(g, j));
        }
    }
}

/// Closing the open event of a guest keeps the rules of the store.
pub proof fn lemma_with_closed_wf(
    s: StoreView,
    i: int,
    now: Seq<char>,
    operator: Option<Seq<char>>,
)
    requires
        s.wf(),
        0 <= i < s.events.len(),
    ensures
        with_closed(s, i, now, operator).wf(),
{
    let t = with_closed(s, i, now, operator);
    assert forall|k: int| 0 <= k < t.events.len() implies t.has_guest(
        (#[trigger] t.events[k]).guest_id,
    ) by {
        assert(t.events[k].guest_id == s.events[k].guest_id);
        assert(s.has_guest(s.events[k].guest_id));
    }
    assert forall|g: i64, a: int, b: int| #[trigger]
        t.open_at(g, a) && #[trigger] t.open_at(g, b) implies a == b by {
        assert(s.open_at(g, a) && s.open_at(g, b));
    }
    assert forall|k: int| 0 <= k < t.events.len() implies 0 < (#[trigger] t.events[k]).id
        < t.next_event_id by {
        assert(t.events[k].id == s.events[k].id);
    }
    assert forall|a: int, b: int| 0 <= a < b < t.events.len() implies (#[trigger] t.events[a]).id
        < (#[trigger] t.events[b]).id by {
        assert(t.events[a].id == s.events[a].id);
        assert(t.events[b].id == s.events[b].id);
    }
}

/// Checks the guest in at the time `now`, on behalf of `operator`.
///
/// A guest that is present stays as it is and `AlreadyIn` is reported.
/// Otherwise an open event is recorded, and the outcome carries the action
/// that deletes it again.
pub fn check_in(
    store: &mut GuestStore,
    guest_id: i64,
    operator: Option<String>,
    now: String,
) -> (out: Result<ToggleOutcome, StoreError>)
    requires
        old(store)@.wf(),
    ensures
        final(store)@.wf(),
        final(store)@ == check_in_model(old(store)@, guest_id, text_view(operator), now@).0,
        out == check_in_model(old(store)@, guest_id, text_view(operator), now@).1,
{
    if store.is_present(guest_id) {
        return Ok(ToggleOutcome { status: ToggleStatus::AlreadyIn, undo: None });
    }
    match store.insert_event(guest_id, now, None, operator, None) {
        Ok(id) => Ok(
            ToggleOutcome {
                status: ToggleStatus::CheckedIn,
                undo: Some(UndoAction::CheckIn { checkin_id: id }),
            },
        ),
        Err(refusal) => Err(refusal),
    }
}

/// Checks the guest out at the time `now`, on behalf of `operator`.
///
/// The open event of a present guest is closed. For a guest that is out,
/// nothing changes unless `force` is set: then a visit that begins and ends
/// at `now` is recorded.
pub fn check_out(
    store: &mut GuestStore,
    guest_id: i64,
    operator: Option<String>,
    force: bool,
    now: String,
) -> (out: Result<ToggleOutcome, StoreError>)
    requires
        old(store)@.wf(),
    ensures
        final(store)@.wf(),
        final(store)@ == check_out_model(
            old(store)@,
            guest_id,
            text_view(operator),
            force,
            now@,
        ).0,
        out == check_out_model(old(store)@, guest_id, text_view(operator), force, now@).1,
{
    let ghost before = store@;
    match store.find_open(guest_id) {
        Some(i) => {
            proof {
                assert(before.open_at(guest_id, i as int));
                assert(before.open_at(guest_id, open_index(before, guest_id)));
            }
            let checkin_id = store.events[i].id;
            let event = store.events.remove(i);
            let closed = CheckinEvent {
                id: event.id,
                guest_id: event.guest_id,
                in_ts: event.in_ts,
                out_ts: Some(now),
                in_by: event.in_by,
                out_by: operator,
            };
            store.events.insert(i, closed);
            proof {
                let after = with_closed(before, i as int, now@, text_view(operator));
                assert(store@.events =~= after.events);
                assert(store@.guests =~= after.guests);
                lemma_with_closed_wf(before, i as int, now@, text_view(operator));
            }
            Ok(
                ToggleOutcome {
                    status: ToggleStatus::CheckedOut,
                    undo: Some(UndoAction::CheckOut { checkin_id }),
                },
            )
        },
        None => {
            if !force {
                let status = if store.has_history(guest_id) {
                    ToggleStatus::NotCheckedIn
                } else {
                    ToggleStatus::NeverCheckedIn
                };
                return Ok(ToggleOutcome { status, undo: None });
            }
            let out_ts = Some(now.clone());
            let out_by = clone_text(&operator);
            match store.insert_event(guest_id, now, out_ts, operator, out_by) {
                Ok(id) => Ok(
                    ToggleOutcome {
                        status: ToggleStatus::CheckedOut,
                        undo: Some(UndoAction::ForcedCheckOut { checkin_id: id }),
                    },
                ),
                Err(refusal) => Err(refusal),
            }
        },
    }
}

} // verus!

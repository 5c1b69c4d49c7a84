//! The undo stack: the inverses of the changes made, newest last, and the
//! function that takes the newest change back.

use vstd::prelude::*;
use crate::checkin::UndoAction;
use crate::store::{CheckinEvent, EventView, GuestStore, StoreError, StoreView};

verus! {

/// How an undo ended.
#[derive(Debug, Clone, Copy, PartialEq, Eq, Structural)]
pub enum UndoStatus {
    RevertedCheckIn,
    RevertedCheckOut,
    Empty,
}

/// The inverses of the changes made so far, the newest last.
#[derive(Debug, Clone)]
pub struct UndoStack {
    entries: Vec<UndoAction>,
}

impl View for UndoStack {
    type V = Seq<UndoAction>;

    closed spec fn view(&self) -> Seq<UndoAction> {
        self.entries@
    }
}

impl UndoStack {
    /// A stack without any action.
    pub fn new() -> (stack: UndoStack)
        ensures
            stack@ == Seq::<UndoAction>::empty(),
    {
        UndoStack { entries: Vec::new() }
    }

    /// The number of actions that can be taken back.
    pub fn len(&self) -> (n: usize)
        ensures
            n == self@.len(),
    {
        self.entries.len()
    }

    /// Whether nothing can be taken back.
    pub fn is_empty(&self) -> (empty: bool)
        ensures
            empty == (self@.len() == 0),
    {
        self.entries.len() == 0
    }

    /// Puts `action` on top.
    pub fn push(&mut self, action: UndoAction)
        ensures
            final(self)@ == old(self)@.push(action),
    {
        self.entries.push(action);
    }

    /// Takes the newest action off, if there is one.
    pub fn pop(&mut self) -> (action: Option<UndoAction>)
        ensures
            old(self)@.len() == 0 ==> action is None && final(self)@ == old(self)@,
            old(self)@.len() > 0 ==> action == Some(old(self)@.last()),
            old(self)@.len() > 0 ==> final(self)@ == old(self)@.drop_last(),
    {
        self.entries.pop()
    }
}

/// The position of the event with this identity number.
pub open spec fn event_index(s: StoreView, event_id: i64) -> int {
    choose|i: int| 0 <= i < s.events.len() && #[trigger] s.events[i].id == event_id
}

/// The store without the event of this identity number; the same store
/// where it holds none.
pub open spec fn without_event(s: StoreView, event_id: i64) -> StoreView {
    if s.has_event(event_id) {
        StoreView { events: s.events.remove(event_index(s, event_id)), ..s }
    } else {
        s
    }
}

/// The store with the event at `i` open again.
pub open spec fn with_reopened(s: StoreView, i: int) -> StoreView {
    StoreView {
        events: s.events.update(i, EventView { out_ts: None, out_by: None, ..s.events[i] }),
        ..s
    }
}

/// Taking one action back, as a function of the store: the store after it,
/// and the status or the refusal.
///
/// An action whose event is gone changes nothing and still reports its
/// status. Reopening is refused where the guest is present through another
/// event, since no guest may have two open events.
pub open spec fn apply_undo_model(s: StoreView, action: UndoAction) -> (
    StoreView,
    Result<UndoStatus, StoreError>,
) {
    match action {
        UndoAction::CheckIn { checkin_id } => (
            without_event(s, checkin_id),
            Ok(UndoStatus::RevertedCheckIn),
        ),
        UndoAction::ForcedCheckOut { checkin_id } => (
            without_event(s, checkin_id),
            Ok(UndoStatus::RevertedCheckOut),
        ),
        UndoAction::CheckOut { checkin_id } => {
            if !s.has_event(checkin_id) {
                (s, Ok(UndoStatus::RevertedCheckOut))
            } else {
                let i = event_index(s, checkin_id);
                if s.events[i].out_ts is None {
                    (s, Ok(UndoStatus::RevertedCheckOut))
                } else if s.is_present(s.events[i].guest_id) {
                    (s, Err(StoreError::AlreadyPresent))
                } else {
                    (with_reopened(s, i), Ok(UndoStatus::RevertedCheckOut))
                }
            }
        },
    }
}

/// Undo as a function of the stack and the store: both after it, and what
/// is reported. A refused action stays on the stack.
pub open spec fn undo_model(stack: Seq<UndoAction>, s: StoreView) -> (
    Seq<UndoAction>,
    StoreView,
    Result<UndoStatus, StoreError>,
) {
    if stack.len() == 0 {
        (stack, s, Ok(UndoStatus::Empty))
    } else {
        let applied = apply_undo_model(s, stack.last());
        match applied.1 {
            Ok(status) => (stack.drop_last(), applied.0, Ok(status)),
            Err(refusal) => (stack, s, Err(refusal)),
        }
    }
}

/// In a store that keeps its rules, one identity number names one event.
pub proof fn lemma_event_index(s: StoreView, i: int)
    requires
        s.event_ids_ordered(),
        0 <= i < s.events.len(),
    ensures
        s.has_event(s.events[i].id),
        event_index(s, s.events[i].id) == i,
{
    let j = event_index(s, s.events[i].id);
    assert(0 <= j < s.events.len() && s.events[j].id == s.events[i].id);
    if j < i {
        assert(s.events[j].id < s.events[i].id);
    } else if i < j {
        assert(s.events[i].id < s.events[j].id);
    }
}

/// Deleting an event keeps the rules of the store.
pub proof fn lemma_without_event_wf(s: StoreView, event_id: i64)
    requires
        s.wf(),
    ensures
        without_event(s, event_id).wf(),
{
    if s.has_event(event_id) {
        let i = event_index(s, event_id);
        let t = without_event(s, event_id);
        assert forall|k: int| 0 <= k < t.events.len() implies 0 < (#[trigger] t.events[k]).id
            < t.next_event_id && t.has_guest(t.events[k].guest_id) by {
            let from = if k < i {
                k
            } else {
                k + 1
            };
            assert(t.events[k] == s.events[from]);
            assert(s.has_guest(s.events[from].guest_id));
        }
        assert forall|a: int, b: int| 0 <= a < b < t.events.len() implies (
        #[trigger] t.events[a]).id < (#[trigger] t.events[b]).id by {
            let from_a = if a < i {
                a
            } else {
                a + 1
            };
            let from_b = if b < i {
                b
            } else {
                b + 1
            };
            assert(t.events[a] == s.events[from_a]);
            assert(t.events[b] == s.events[from_b]);
        }
        assert forall|g: i64, a: int, b: int| #[trigger]
            t.open_at(g, a) && #[trigger] t.open_at(g, b) implies a == b by {
            let from_a = if a < i {
                a
            } else {
                a + 1
            };
            let from_b = if b < i {
                b
            } else {
                b + 1
            };
            assert(t.events[a] == s.events[from_a]);
            assert(t.events[b] == s.events[from_b]);
            assert(s.open_at(g, from_a) && s.open_at(g, from_b));
        }
    }
}

/// Reopening a closed event of a guest that is out keeps the rules of the
/// store.
pub proof fn lemma_with_reopened_wf(s: StoreView, i: int)
    requires
        s.wf(),
        0 <= i < s.events.len(),
        !s.is_present(s.events[i].guest_id),
    ensures
        with_reopened(s, i).wf(),
{
    let t = with_reopened(s, i);
    assert forall|k: int| 0 <= k < t.events.len() implies 0 < (#[trigger] t.events[k]).id
        < t.next_event_id && t.has_guest(t.events[k].guest_id) by {
        assert(t.events[k].id == s.events[k].id);
        assert(s.has_guest(s.events[k].guest_id));
    }
    assert forall|a: int, b: int| 0 <= a < b < t.events.len() implies (#[trigger] t.events[a]).id
        < (#[trigger] t.events[b]).id by {
        assert(t.events[a].id == s.events[a].id);
        assert(t.events[b].id == s.events[b].id);
    }
    assert forall|g: i64, a: int, b: int| #[trigger]
        t.open_at(g, a) && #[trigger] t.open_at(g, b) implies a == b by {
        if a != i {
            assert(s.open_at(g, a));
        }
        if b != i {
            assert(s.open_at(g, b));
        }
    }
}

impl GuestStore {
    /// The position of the event with this identity number, if the store
    /// holds it.
    pub fn find_event(&self, event_id: i64) -> (found: Option<usize>)
        requires
            self@.event_ids_ordered(),
        ensures
            found is Some <==> self@.has_event(event_id),
            found matches Some(i) ==> i as int == event_index(self@, event_id) && i
                < self@.events.len(),
    {
        let mut i: usize = 0;
        while i < self.events.len()
            invariant
                i <= self.events.len(),
                self@.event_ids_ordered(),
                forall|k: int| 0 <= k < i ==> self@.events[k].id != event_id,
            decreases self.events.len() - i,
        {
            if self.events[i].id == event_id {
                proof {
                    lemma_event_index(self@, i as int);
                }
                return Some(i);
            }
            i += 1;
        }
        None
    }

    /// Deletes the event with this identity number, if the store holds it.
    pub fn delete_event(&mut self, event_id: i64)
        requires
            old(self)@.wf(),
        ensures
            final(self)@.wf(),
            final(self)@ == without_event(old(self)@, event_id),
    {
        let ghost before = self@;
        proof {
            lemma_without_event_wf(before, event_id);
        }
        match self.find_event(event_id) {
            Some(i) => {
                self.events.remove(i);
                assert(self@.events =~= without_event(before, event_id).events);
                assert(self@.guests =~= before.guests);
            },
            None => {},
        }
    }
}

/// Takes `action` back in the store.
pub fn apply_undo(store: &mut GuestStore, action: UndoAction) -> (out: Result<
    UndoStatus,
    StoreError,
>)
    requires
        old(store)@.wf(),
    ensures
        final(store)@.wf(),
        final(store)@ == apply_undo_model(old(store)@, action).0,
        out == apply_undo_model(old(store)@, action).1,
{
    let ghost before = store@;
    match action {
        UndoAction::CheckIn { checkin_id } => {
            store.delete_event(checkin_id);
            Ok(UndoStatus::RevertedCheckIn)
        },
        UndoAction::ForcedCheckOut { checkin_id } => {
            store.delete_event(checkin_id);
            Ok(UndoStatus::RevertedCheckOut)
        },
        UndoAction::CheckOut { checkin_id } => {
            match store.find_event(checkin_id) {
                None => Ok(UndoStatus::RevertedCheckOut),
                Some(i) => {
                    if store.events[i].out_ts.is_none() {
                        return Ok(UndoStatus::RevertedCheckOut);
                    }
                    if store.is_present(store.events[i].guest_id) {
                        return Err(StoreError::AlreadyPresent);
                    }
                    let event = store.events.remove(i);
                    let reopened = CheckinEvent {
                        id: event.id,
                        guest_id: event.guest_id,
                        in_ts: event.in_ts,
                        out_ts: None,
                        in_by: event.in_by,
                        out_by: None,
                    };
                    store.events.insert(i, reopened);
                    proof {
                        assert(store@.events =~= with_reopened(before, i as int).events);
                        assert(store@.guests =~= before.guests);
                        lemma_with_reopened_wf(before, i as int);
                    }
                    Ok(UndoStatus::RevertedCheckOut)
                },
            }
        },
    }
}

/// Takes the newest change back.
///
/// With nothing on the stack, `Empty` is reported and nothing changes.
/// Otherwise the newest action leaves the stack and is applied; where the
/// store refuses it, the action is put back and the refusal returned.
pub fn undo_last(stack: &mut UndoStack, store: &mut GuestStore) -> (out: Result<
    UndoStatus,
    StoreError,
>)
    requires
        old(store)@.wf(),
    ensures
        final(store)@.wf(),
        final(stack)@ == undo_model(old(stack)@, old(store)@).0,
        final(store)@ == undo_model(old(stack)@, old(store)@).1,
        out == undo_model(old(stack)@, old(store)@).2,
{
    let ghost stack_before = stack@;
    match stack.pop() {
        None => Ok(UndoStatus::Empty),
        Some(action) => {
            match apply_undo(store, action) {
                Ok(status) => Ok(status),
                Err(refusal) => {
                    stack.push(action);
                    assert(stack@ =~= stack_before);
                    Err(refusal)
                },
            }
        },
    }
}

} // verus!

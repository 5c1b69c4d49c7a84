//! What holds of the attendance machine as a whole: the rules of the store
//! survive every sequence of actions, undos and imports, and an undo
//! restores what the action before it changed.

use vstd::prelude::*;
use crate::checkin::{ToggleOutcome, ToggleStatus, UndoAction, check_in_model, check_out_model,
    insert_refused, lemma_with_closed_wf, lemma_with_event_wf, open_index, with_closed};
use crate::merge::{ImportMode, RowView, import_model, law_import_keeps_rules};
use crate::store::{EventView, StoreError, StoreView};
use crate::toggle::{ToggleAction, toggle_model};
use crate::undo::{UndoStatus, apply_undo_model, event_index, lemma_event_index,
    lemma_with_reopened_wf, lemma_without_event_wf, undo_model, with_reopened};

verus! {

/// One step of a session: an action of an operator, an undo, or an
/// import.
pub enum Step {
    Toggle {
        guest_id: i64,
        action: ToggleAction,
        operator: Option<Seq<char>>,
        force: bool,
        now: Seq<char>,
    },
    Undo,
    Import { rows: Seq<RowView>, mode: ImportMode, now: Seq<char> },
}

/// The stack and the store after one step.
pub open spec fn step_model(stack: Seq<UndoAction>, s: StoreView, step: Step) -> (
    Seq<UndoAction>,
    StoreView,
) {
    match step {
        Step::Toggle { guest_id, action, operator, force, now } => {
            let done = toggle_model(stack, s, guest_id, action, operator, force, now);
            (done.0, done.1)
        },
        Step::Undo => {
            let done = undo_model(stack, s);
            (done.0, done.1)
        },
        Step::Import { rows, mode, now } => (stack, import_model(s, rows, mode, now).0),
    }
}

/// The stack and the store after a sequence of steps.
pub open spec fn run_model(stack: Seq<UndoAction>, s: StoreView, steps: Seq<Step>) -> (
    Seq<UndoAction>,
    StoreView,
)
    decreases steps.len(),
{
    if steps.len() == 0 {
        (stack, s)
    } else {
        let before = run_model(stack, s, steps.drop_last());
        step_model(before.0, before.1, steps.last())
    }
}

/// Check-in keeps the rules of the store.
pub proof fn law_check_in_keeps_rules(
    s: StoreView,
    guest_id: i64,
    operator: Option<Seq<char>>,
    now: Seq<char>,
)
    requires
        s.wf(),
    ensures
        check_in_model(s, guest_id, operator, now).0.wf(),
{
    if !s.is_present(guest_id) && insert_refused(s, guest_id) is None {
        lemma_with_event_wf(s, guest_id, now, None, operator, None);
    }
}

/// Check-out keeps the rules of the store.
pub proof fn law_check_out_keeps_rules(
    s: StoreView,
    guest_id: i64,
    operator: Option<Seq<char>>,
    force: bool,
    now: Seq<char>,
)
    requires
        s.wf(),
    ensures
        check_out_model(s, guest_id, operator, force, now).0.wf(),
{
    if s.is_present(guest_id) {
        let i = open_index(s, guest_id);
        assert(s.open_at(guest_id, i));
        lemma_with_closed_wf(s, i, now, operator);
    } else if force && insert_refused(s, guest_id) is None {
        lemma_with_event_wf(s, guest_id, now, Some(now), operator, operator);
    }
}

/// Taking an action back keeps the rules of the store.
pub proof fn law_undo_keeps_rules(s: StoreView, action: UndoAction)
    requires
        s.wf(),
    ensures
        apply_undo_model(s, action).0.wf(),
{
    match action {
        UndoAction::CheckIn { checkin_id } => {
            lemma_without_event_wf(s, checkin_id);
        },
        UndoAction::ForcedCheckOut { checkin_id } => {
            lemma_without_event_wf(s, checkin_id);
        },
        UndoAction::CheckOut { checkin_id } => {
            if s.has_event(checkin_id) {
                let i = event_index(s, checkin_id);
                if s.events[i].out_ts is Some && !s.is_present(s.events[i].guest_id) {
                    lemma_with_reopened_wf(s, i);
                }
            }
        },
    }
}

/// After any sequence of check-ins, check-outs, undos and imports, the
/// store keeps its rules; in particular, no guest has two open events.
pub proof fn law_one_open_event(stack: Seq<UndoAction>, s: StoreView, steps: Seq<Step>)
    requires
        s.wf(),
    ensures
        run_model(stack, s, steps).1.wf(),
        run_model(stack, s, steps).1.at_most_one_open(),
    decreases steps.len(),
{
    if steps.len() > 0 {
        law_one_open_event(stack, s, steps.drop_last());
        let before = run_model(stack, s, steps.drop_last());
        match steps.last() {
            Step::Toggle { guest_id, action, operator, force, now } => {
                match action {
                    ToggleAction::In => {
                        law_check_in_keeps_rules(before.1, guest_id, operator, now);
                    },
                    ToggleAction::Out => {
                        law_check_out_keeps_rules(before.1, guest_id, operator, force, now);
                    },
                }
            },
            Step::Undo => {
                if before.0.len() > 0 {
                    law_undo_keeps_rules(before.1, before.0.last());
                }
            },
            Step::Import { rows, mode, now } => {
                law_import_keeps_rules(before.1, rows, mode, now);
            },
        }
    }
}

/// Check-in of a guest that is present changes nothing, records nothing to
/// undo, and reports `AlreadyIn`.
pub proof fn law_check_in_when_present(
    s: StoreView,
    guest_id: i64,
    operator: Option<Seq<char>>,
    now: Seq<char>,
)
    requires
        s.is_present(guest_id),
    ensures
        check_in_model(s, guest_id, operator, now) == (
            s,
            Ok::<ToggleOutcome, StoreError>(
                ToggleOutcome { status: ToggleStatus::AlreadyIn, undo: None },
            ),
        ),
{
}

/// Check-out without force of a guest that is out changes nothing and
/// reports `NotCheckedIn` for a guest with a history, `NeverCheckedIn` for
/// one without.
pub proof fn law_check_out_when_out(
    s: StoreView,
    guest_id: i64,
    operator: Option<Seq<char>>,
    now: Seq<char>,
)
    requires
        !s.is_present(guest_id),
    ensures
        check_out_model(s, guest_id, operator, false, now).0 == s,
        check_out_model(s, guest_id, operator, false, now).1 == Ok::<ToggleOutcome, StoreError>(
            ToggleOutcome {
                status: if s.has_history(guest_id) {
                    ToggleStatus::NotCheckedIn
                } else {
                    ToggleStatus::NeverCheckedIn
                },
                undo: None,
            },
        ),
{
}

/// Forced check-out of a guest that is out, where the store knows the
/// guest and has an identity number left, reports `CheckedOut` and adds
/// exactly one event, which begins and ends at `now`; the guest stays out.
pub proof fn law_forced_check_out(
    s: StoreView,
    guest_id: i64,
    operator: Option<Seq<char>>,
    now: Seq<char>,
)
    requires
        s.wf(),
        !s.is_present(guest_id),
        insert_refused(s, guest_id) is None,
    ensures
        check_out_model(s, guest_id, operator, true, now).1 matches Ok(outcome)
            && outcome.status == ToggleStatus::CheckedOut,
        check_out_model(s, guest_id, operator, true, now).0.events == s.events.push(
            EventView {
                id: s.next_event_id as i64,
                guest_id,
                in_ts: now,
                out_ts: Some(now),
                in_by: operator,
                out_by: operator,
            },
        ),
        !check_out_model(s, guest_id, operator, true, now).0.is_present(guest_id),
{
    let t = check_out_model(s, guest_id, operator, true, now).0;
    if t.is_present(guest_id) {
        let i = choose|i: int| #[trigger] t.open_at(guest_id, i);
        assert(s.open_at(guest_id, i));
    }
}

/// The store with the next event number advanced by one: what is left of a
/// change once it is taken back.
pub open spec fn event_number_spent(s: StoreView) -> StoreView {
    StoreView { next_event_id: s.next_event_id + 1, ..s }
}

/// Undo right after a check-in that took place removes the event that the
/// check-in made: stack, guests and events are as before, and the guest is
/// out again.
pub proof fn law_undo_after_check_in(
    stack: Seq<UndoAction>,
    s: StoreView,
    guest_id: i64,
    operator: Option<Seq<char>>,
    now: Seq<char>,
)
    requires
        s.wf(),
        !s.is_present(guest_id),
        insert_refused(s, guest_id) is None,
    ensures
        ({
            let done = toggle_model(stack, s, guest_id, ToggleAction::In, operator, false, now);
            &&& done.2 == Ok::<ToggleStatus, StoreError>(ToggleStatus::CheckedIn)
            &&& done.1.is_present(guest_id)
            &&& undo_model(done.0, done.1) == (
                stack,
                event_number_spent(s),
                Ok::<UndoStatus, StoreError>(UndoStatus::RevertedCheckIn),
            )
            &&& !undo_model(done.0, done.1).1.is_present(guest_id)
        }),
{
    let done = toggle_model(stack, s, guest_id, ToggleAction::In, operator, false, now);
    let id = s.next_event_id as i64;
    let n = s.events.len() as int;
    lemma_with_event_wf(s, guest_id, now, None, operator, None);
    assert(done.1.open_at(guest_id, n));
    assert(done.0 == stack.push(UndoAction::CheckIn { checkin_id: id }));
    assert(done.0.drop_last() =~= stack);
    assert(done.1.events[n].id == id);
    lemma_event_index(done.1, n);
    assert(done.1.events.remove(n) =~= s.events);
    let back = undo_model(done.0, done.1).1;
    assert(back == event_number_spent(s));
    if back.is_present(guest_id) {
        let i = choose|i: int| #[trigger] back.open_at(guest_id, i);
        assert(s.open_at(guest_id, i));
    }
}

/// Undo right after a check-out of a present guest reopens the very event
/// that the check-out closed: stack and store are as before, and the guest
/// is in again.
pub proof fn law_undo_after_check_out(
    stack: Seq<UndoAction>,
    s: StoreView,
    guest_id: i64,
    operator: Option<Seq<char>>,
    force: bool,
    now: Seq<char>,
)
    requires
        s.wf(),
        s.is_present(guest_id),
    ensures
        ({
            let done = toggle_model(stack, s, guest_id, ToggleAction::Out, operator, force, now);
            &&& done.2 == Ok::<ToggleStatus, StoreError>(ToggleStatus::CheckedOut)
            &&& !done.1.is_present(guest_id)
            &&& undo_model(done.0, done.1) == (
                stack,
                s,
                Ok::<UndoStatus, StoreError>(UndoStatus::RevertedCheckOut),
            )
        }),
{
    let done = toggle_model(stack, s, guest_id, ToggleAction::Out, operator, force, now);
    let i = open_index(s, guest_id);
    assert(s.open_at(guest_id, i));
    lemma_with_closed_wf(s, i, now, operator);
    let id = s.events[i].id;
    assert(done.0 == stack.push(UndoAction::CheckOut { checkin_id: id }));
    assert(done.0.drop_last() =~= stack);
    assert(done.1 == with_closed(s, i, now, operator));
    assert(done.1.events[i].id == id);
    lemma_event_index(done.1, i);
    if done.1.is_present(guest_id) {
        let k = choose|k: int| #[trigger] done.1.open_at(guest_id, k);
        assert(s.open_at(guest_id, k));
        assert(s.open_at(guest_id, i));
    }
    assert(with_reopened(done.1, i).events =~= s.events);
}

/// Undo right after a forced check-out that took place removes the visit
/// that it made up.
pub proof fn law_undo_after_forced_check_out(
    stack: Seq<UndoAction>,
    s: StoreView,
    guest_id: i64,
    operator: Option<Seq<char>>,
    now: Seq<char>,
)
    requires
        s.wf(),
        !s.is_present(guest_id),
        insert_refused(s, guest_id) is None,
    ensures
        ({
            let done = toggle_model(stack, s, guest_id, ToggleAction::Out, operator, true, now);
            &&& done.2 == Ok::<ToggleStatus, StoreError>(ToggleStatus::CheckedOut)
            &&& undo_model(done.0, done.1) == (
                stack,
                event_number_spent(s),
                Ok::<UndoStatus, StoreError>(UndoStatus::RevertedCheckOut),
            )
        }),
{
    let done = toggle_model(stack, s, guest_id, ToggleAction::Out, operator, true, now);
    let id = s.next_event_id as i64;
    let n = s.events.len() as int;
    lemma_with_event_wf(s, guest_id, now, Some(now), operator, operator);
    assert(done.0 == stack.push(UndoAction::ForcedCheckOut { checkin_id: id }));
    assert(done.0.drop_last() =~= stack);
    assert(done.1.events[n].id == id);
    lemma_event_index(done.1, n);
    assert(done.1.events.remove(n) =~= s.events);
}

/// Undo on an empty stack reports `Empty` and changes nothing.
pub proof fn law_undo_on_empty_stack(s: StoreView)
    ensures
        undo_model(Seq::<UndoAction>::empty(), s) == (
            Seq::<UndoAction>::empty(),
            s,
            Ok::<UndoStatus, StoreError>(UndoStatus::Empty),
        ),
{
}

} // verus!

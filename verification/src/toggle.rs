//! One operator action: a check-in or a check-out, with the inverse of the
//! change it made put on the undo stack.

use vstd::prelude::*;
use crate::checkin::{ToggleStatus, UndoAction, check_in, check_in_model, check_out,
    check_out_model};
use crate::clock::central_now_time_string;
use crate::store::{GuestStore, StoreError, StoreView, text_view};
use crate::text::{chars_of, lowercase_of, same_text, str_lowercase};
use crate::undo::UndoStack;

verus! {

/// Which way a guest is to go.
#[derive(Debug, Clone, Copy, PartialEq, Eq, Structural)]
pub enum ToggleAction {
    In,
    Out,
}

/// Why an action was not performed.
#[derive(Debug, Clone, Copy, PartialEq, Eq, Structural)]
pub enum ToggleError {
    /// The action is neither `in` nor `out`.
    InvalidAction,
    /// The store refused the change.
    Store(StoreError),
}

/// The reading of an action: `in` or `out` in any letter case.
pub open spec fn action_model(action: Seq<char>) -> Option<ToggleAction> {
    if str_lowercase(action) == "in"@ {
        Some(ToggleAction::In)
    } else if str_lowercase(action) == "out"@ {
        Some(ToggleAction::Out)
    } else {
        None
    }
}

/// The stack with the inverse of a change on top, where there is one.
pub open spec fn with_undo(stack: Seq<UndoAction>, undo: Option<UndoAction>) -> Seq<UndoAction> {
    match undo {
        Some(action) => stack.push(action),
        None => stack,
    }
}

/// An action as a function of the stack and the store: both after it, and
/// what is reported.
pub open spec fn toggle_model(
    stack: Seq<UndoAction>,
    s: StoreView,
    guest_id: i64,
    action: ToggleAction,
    operator: Option<Seq<char>>,
    force: bool,
    now: Seq<char>,
) -> (Seq<UndoAction>, StoreView, Result<ToggleStatus, StoreError>) {
    let moved = match action {
        ToggleAction::In => check_in_model(s, guest_id, operator, now),
        ToggleAction::Out => check_out_model(s, guest_id, operator, force, now),
    };
    match moved.1 {
        Ok(outcome) => (with_undo(stack, outcome.undo), moved.0, Ok(outcome.status)),
        Err(refusal) => (stack, moved.0, Err(refusal)),
    }
}

/// The force that an action is performed with: none where nothing is said.
pub open spec fn force_of(force: Option<bool>) -> bool {
    match force {
        Some(f) => f,
        None => false,
    }
}

/// A named action as a function of the stack and the store, `now` being
/// the current time.
pub open spec fn toggle_checkin_model(
    stack: Seq<UndoAction>,
    s: StoreView,
    guest_id: i64,
    action: Seq<char>,
    operator: Option<Seq<char>>,
    force: Option<bool>,
    now: Seq<char>,
) -> (Seq<UndoAction>, StoreView, Result<ToggleStatus, ToggleError>) {
    match action_model(action) {
        None => (stack, s, Err(ToggleError::InvalidAction)),
        Some(which) => {
            let done = toggle_model(stack, s, guest_id, which, operator, force_of(force), now);
            (
                done.0,
                done.1,
                match done.2 {
                    Ok(status) => Ok(status),
                    Err(refusal) => Err(ToggleError::Store(refusal)),
                },
            )
        },
    }
}

/// Reads an action: `in` or `out` in any letter case.
pub fn parse_action(action: &str) -> (out: Option<ToggleAction>)
    ensures
        out == action_model(action@),
{
    let low = chars_of(lowercase_of(action).as_str());
    if same_text(&low, &chars_of("in")) {
        Some(ToggleAction::In)
    } else if same_text(&low, &chars_of("out")) {
        Some(ToggleAction::Out)
    } else {
        None
    }
}

/// Performs the action at the time `now` and puts the inverse of the
/// change, where there is one, on the stack.
pub fn toggle_at(
    stack: &mut UndoStack,
    store: &mut GuestStore,
    guest_id: i64,
    action: ToggleAction,
    operator: Option<String>,
    force: bool,
    now: String,
) -> (out: Result<ToggleStatus, StoreError>)
    requires
        old(store)@.wf(),
    ensures
        final(store)@.wf(),
        final(stack)@ == toggle_model(
            old(stack)@,
            old(store)@,
            guest_id,
            action,
            text_view(operator),
            force,
            now@,
        ).0,
        final(store)@ == toggle_model(
            old(stack)@,
            old(store)@,
            guest_id,
            action,
            text_view(operator),
            force,
            now@,
        ).1,
        out == toggle_model(
            old(stack)@,
            old(store)@,
            guest_id,
            action,
            text_view(operator),
            force,
            now@,
        ).2,
{
    let moved = match action {
        ToggleAction::In => check_in(store, guest_id, operator, now),
        ToggleAction::Out => check_out(store, guest_id, operator, force, now),
    };
    match moved {
        Ok(outcome) => {
            match outcome.undo {
                Some(undo) => {
                    stack.push(undo);
                },
                None => {},
            }
            Ok(outcome.status)
        },
        Err(refusal) => Err(refusal),
    }
}

/// Performs the named action at the current time in Chicago.
///
/// An action that is neither `in` nor `out` is refused and nothing
/// changes. Which time is read depends on the clock alone; whatever it is,
/// the outcome is the one of [`toggle_checkin_model`] at that time.
pub fn toggle_checkin(
    stack: &mut UndoStack,
    store: &mut GuestStore,
    guest_id: i64,
    action: &str,
    operator: Option<String>,
    force: Option<bool>,
) -> (out: Result<ToggleStatus, ToggleError>)
    requires
        old(store)@.wf(),
    ensures
        final(store)@.wf(),
        exists|now: Seq<char>|
            (final(stack)@, final(store)@, out) == toggle_checkin_model(
                old(stack)@,
                old(store)@,
                guest_id,
                action@,
                text_view(operator),
                force,
                now,
            ),
{
    let forced = match force {
        Some(f) => f,
        None => false,
    };
    match parse_action(action) {
        None => {
            let ghost now = Seq::<char>::empty();
            assert((stack@, store@, Err::<ToggleStatus, ToggleError>(ToggleError::InvalidAction))
                == toggle_checkin_model(
                old(stack)@,
                old(store)@,
                guest_id,
                action@,
                text_view(operator),
                force,
                now,
            ));
            Err(ToggleError::InvalidAction)
        },
        Some(which) => {
            let now = central_now_time_string();
            let ghost at = now@;
            let done = toggle_at(stack, store, guest_id, which, operator, forced, now);
            let out = match done {
                Ok(status) => Ok(status),
                Err(refusal) => Err(ToggleError::Store(refusal)),
            };
            assert((stack@, store@, out) == toggle_checkin_model(
                old(stack)@,
                old(store)@,
                guest_id,
                action@,
                text_view(operator),
                force,
                at,
            ));
            out
        },
    }
}

} // verus!

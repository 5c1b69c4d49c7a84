use party_sign_in::checkin::{check_in, check_out, ToggleOutcome, ToggleStatus, UndoAction};
use party_sign_in::store::{CheckinEvent, GuestStore, StoreError};
use party_sign_in::toggle::{parse_action, toggle_at, toggle_checkin, ToggleAction, ToggleError};
use party_sign_in::undo::{apply_undo, undo_last, UndoStack, UndoStatus};

fn some(text: &str) -> Option<String> {
    Some(text.to_string())
}

fn store_with(names: &[&str]) -> GuestStore {
    let mut store = GuestStore::new();
    for name in names {
        store.add_guest(name.to_string(), None, None).unwrap();
    }
    store
}

fn open_events_of(store: &GuestStore, guest_id: i64) -> usize {
    store.events().iter().filter(|e| e.guest_id == guest_id && e.out_ts.is_none()).count()
}

#[test]
fn check_in_opens_an_event() {
    let mut store = store_with(&["Ann"]);
    let outcome = check_in(&mut store, 1, some("op"), "09:00:00 AM".to_string());
    assert_eq!(
        outcome,
        Ok(ToggleOutcome {
            status: ToggleStatus::CheckedIn,
            undo: Some(UndoAction::CheckIn { checkin_id: 1 }),
        })
    );
    assert_eq!(
        store.events(),
        &vec![CheckinEvent {
            id: 1,
            guest_id: 1,
            in_ts: "09:00:00 AM".to_string(),
            out_ts: None,
            in_by: some("op"),
            out_by: None,
        }]
    );
    assert!(store.is_present(1));
    assert!(store.has_history(1));
}

#[test]
fn check_in_on_a_present_guest_reports_already_in() {
    let mut store = store_with(&["Ann"]);
    check_in(&mut store, 1, None, "09:00:00 AM".to_string()).unwrap();
    let again = check_in(&mut store, 1, some("op"), "09:05:00 AM".to_string());
    assert_eq!(again, Ok(ToggleOutcome { status: ToggleStatus::AlreadyIn, undo: None }));
    assert_eq!(store.events().len(), 1);
    assert_eq!(store.events()[0].in_ts, "09:00:00 AM");
}

#[test]
fn check_in_of_an_unknown_guest_is_refused() {
    let mut store = store_with(&["Ann"]);
    assert_eq!(
        check_in(&mut store, 7, None, "09:00:00 AM".to_string()),
        Err(StoreError::UnknownGuest)
    );
    assert!(store.events().is_empty());
}

#[test]
fn check_out_closes_the_open_event() {
    let mut store = store_with(&["Ann"]);
    check_in(&mut store, 1, some("door"), "09:00:00 AM".to_string()).unwrap();
    let outcome = check_out(&mut store, 1, some("desk"), false, "10:00:00 AM".to_string());
    assert_eq!(
        outcome,
        Ok(ToggleOutcome {
            status: ToggleStatus::CheckedOut,
            undo: Some(UndoAction::CheckOut { checkin_id: 1 }),
        })
    );
    assert_eq!(
        store.events(),
        &vec![CheckinEvent {
            id: 1,
            guest_id: 1,
            in_ts: "09:00:00 AM".to_string(),
            out_ts: some("10:00:00 AM"),
            in_by: some("door"),
            out_by: some("desk"),
        }]
    );
    assert!(!store.is_present(1));
}

#[test]
fn check_out_without_history_reports_never_checked_in() {
    let mut store = store_with(&["Ann"]);
    let outcome = check_out(&mut store, 1, None, false, "10:00:00 AM".to_string());
    assert_eq!(outcome, Ok(ToggleOutcome { status: ToggleStatus::NeverCheckedIn, undo: None }));
    assert!(store.events().is_empty());
}

#[test]
fn check_out_with_history_reports_not_checked_in() {
    let mut store = store_with(&["Ann"]);
    check_in(&mut store, 1, None, "09:00:00 AM".to_string()).unwrap();
    check_out(&mut store, 1, None, false, "10:00:00 AM".to_string()).unwrap();
    let outcome = check_out(&mut store, 1, None, false, "11:00:00 AM".to_string());
    assert_eq!(outcome, Ok(ToggleOutcome { status: ToggleStatus::NotCheckedIn, undo: None }));
    assert_eq!(store.events().len(), 1);
    assert_eq!(store.events()[0].out_ts, some("10:00:00 AM"));
}

#[test]
fn forced_check_out_records_an_instant_visit() {
    let mut store = store_with(&["Ann"]);
    let outcome = check_out(&mut store, 1, some("desk"), true, "10:00:00 AM".to_string());
    assert_eq!(
        outcome,
        Ok(ToggleOutcome {
            status: ToggleStatus::CheckedOut,
            undo: Some(UndoAction::ForcedCheckOut { checkin_id: 1 }),
        })
    );
    assert_eq!(
        store.events(),
        &vec![CheckinEvent {
            id: 1,
            guest_id: 1,
            in_ts: "10:00:00 AM".to_string(),
            out_ts: some("10:00:00 AM"),
            in_by: some("desk"),
            out_by: some("desk"),
        }]
    );
    assert!(!store.is_present(1));
}

#[test]
fn forced_check_out_of_an_unknown_guest_is_refused() {
    let mut store = store_with(&["Ann"]);
    assert_eq!(
        check_out(&mut store, 9, None, true, "10:00:00 AM".to_string()),
        Err(StoreError::UnknownGuest)
    );
    assert_eq!(
        check_out(&mut store, 9, None, false, "10:00:00 AM".to_string()),
        Ok(ToggleOutcome { status: ToggleStatus::NeverCheckedIn, undo: None })
    );
}

#[test]
fn at_most_one_open_event_after_many_toggles() {
    let mut store = store_with(&["Ann", "Bob"]);
    let mut stack = UndoStack::new();
    let steps = [
        (1, ToggleAction::In, false),
        (1, ToggleAction::In, false),
        (2, ToggleAction::Out, true),
        (2, ToggleAction::In, false),
        (1, ToggleAction::Out, false),
        (1, ToggleAction::Out, true),
        (1, ToggleAction::In, false),
        (2, ToggleAction::In, false),
    ];
    for (n, (guest, action, force)) in steps.iter().enumerate() {
        toggle_at(&mut stack, &mut store, *guest, *action, None, *force, format!("{:02}:00:00 AM", n + 1))
            .unwrap();
        assert!(open_events_of(&store, 1) <= 1);
        assert!(open_events_of(&store, 2) <= 1);
        if n % 3 == 2 {
            undo_last(&mut stack, &mut store).unwrap();
            assert!(open_events_of(&store, 1) <= 1);
            assert!(open_events_of(&store, 2) <= 1);
        }
    }
    while !stack.is_empty() {
        undo_last(&mut stack, &mut store).unwrap();
        assert!(open_events_of(&store, 1) <= 1);
        assert!(open_events_of(&store, 2) <= 1);
    }
    assert!(store.events().is_empty());
}

#[test]
fn undo_after_check_in_removes_the_event() {
    let mut store = store_with(&["Ann"]);
    let mut stack = UndoStack::new();
    let status =
        toggle_at(&mut stack, &mut store, 1, ToggleAction::In, None, false, "09:00:00 AM".to_string());
    assert_eq!(status, Ok(ToggleStatus::CheckedIn));
    assert_eq!(stack.len(), 1);
    assert_eq!(undo_last(&mut stack, &mut store), Ok(UndoStatus::RevertedCheckIn));
    assert!(store.events().is_empty());
    assert!(!store.is_present(1));
    assert!(stack.is_empty());
}

#[test]
fn undo_after_check_out_reopens_the_same_event() {
    let mut store = store_with(&["Ann"]);
    let mut stack = UndoStack::new();
    toggle_at(&mut stack, &mut store, 1, ToggleAction::In, some("door"), false, "09:00:00 AM".to_string())
        .unwrap();
    let before = store.events().clone();
    let status = toggle_at(
        &mut stack,
        &mut store,
        1,
        ToggleAction::Out,
        some("desk"),
        false,
        "10:00:00 AM".to_string(),
    );
    assert_eq!(status, Ok(ToggleStatus::CheckedOut));
    assert_eq!(undo_last(&mut stack, &mut store), Ok(UndoStatus::RevertedCheckOut));
    assert_eq!(store.events(), &before);
    assert!(store.is_present(1));
    assert_eq!(stack.len(), 1);
}

#[test]
fn undo_after_forced_check_out_removes_the_visit() {
    let mut store = store_with(&["Ann"]);
    let mut stack = UndoStack::new();
    toggle_at(&mut stack, &mut store, 1, ToggleAction::Out, None, true, "10:00:00 AM".to_string())
        .unwrap();
    assert_eq!(store.events().len(), 1);
    assert_eq!(undo_last(&mut stack, &mut store), Ok(UndoStatus::RevertedCheckOut));
    assert!(store.events().is_empty());
}

#[test]
fn undo_on_an_empty_stack_reports_empty() {
    let mut store = store_with(&["Ann"]);
    check_in(&mut store, 1, None, "09:00:00 AM".to_string()).unwrap();
    let before = store.events().clone();
    let mut stack = UndoStack::new();
    assert_eq!(undo_last(&mut stack, &mut store), Ok(UndoStatus::Empty));
    assert_eq!(store.events(), &before);
    assert!(stack.is_empty());
}

#[test]
fn undo_takes_changes_back_newest_first() {
    let mut store = store_with(&["Ann", "Bob"]);
    let mut stack = UndoStack::new();
    toggle_at(&mut stack, &mut store, 1, ToggleAction::In, None, false, "09:00:00 AM".to_string())
        .unwrap();
    toggle_at(&mut stack, &mut store, 2, ToggleAction::In, None, false, "09:01:00 AM".to_string())
        .unwrap();
    toggle_at(&mut stack, &mut store, 1, ToggleAction::Out, None, false, "09:02:00 AM".to_string())
        .unwrap();
    assert_eq!(stack.len(), 3);
    assert_eq!(undo_last(&mut stack, &mut store), Ok(UndoStatus::RevertedCheckOut));
    assert!(store.is_present(1) && store.is_present(2));
    assert_eq!(undo_last(&mut stack, &mut store), Ok(UndoStatus::RevertedCheckIn));
    assert!(store.is_present(1) && !store.is_present(2));
    assert_eq!(undo_last(&mut stack, &mut store), Ok(UndoStatus::RevertedCheckIn));
    assert!(!store.is_present(1));
    assert_eq!(undo_last(&mut stack, &mut store), Ok(UndoStatus::Empty));
}

#[test]
fn statuses_without_a_change_push_nothing() {
    let mut store = store_with(&["Ann"]);
    let mut stack = UndoStack::new();
    let never =
        toggle_at(&mut stack, &mut store, 1, ToggleAction::Out, None, false, "09:00:00 AM".to_string());
    assert_eq!(never, Ok(ToggleStatus::NeverCheckedIn));
    assert!(stack.is_empty());
    toggle_at(&mut stack, &mut store, 1, ToggleAction::In, None, false, "09:00:00 AM".to_string())
        .unwrap();
    let again =
        toggle_at(&mut stack, &mut store, 1, ToggleAction::In, None, false, "09:01:00 AM".to_string());
    assert_eq!(again, Ok(ToggleStatus::AlreadyIn));
    assert_eq!(stack.len(), 1);
}

#[test]
fn a_refused_undo_stays_on_the_stack() {
    let mut store = store_with(&["Ann"]);
    let mut first = UndoStack::new();
    toggle_at(&mut first, &mut store, 1, ToggleAction::In, None, false, "09:00:00 AM".to_string())
        .unwrap();
    toggle_at(&mut first, &mut store, 1, ToggleAction::Out, None, false, "10:00:00 AM".to_string())
        .unwrap();
    // a change that the first stack does not know of
    let mut second = UndoStack::new();
    toggle_at(&mut second, &mut store, 1, ToggleAction::In, None, false, "11:00:00 AM".to_string())
        .unwrap();
    let before = store.events().clone();
    assert_eq!(undo_last(&mut first, &mut store), Err(StoreError::AlreadyPresent));
    assert_eq!(first.len(), 2);
    assert_eq!(store.events(), &before);
    // once the newer visit is taken back, the older undo goes through
    assert_eq!(undo_last(&mut second, &mut store), Ok(UndoStatus::RevertedCheckIn));
    assert_eq!(undo_last(&mut first, &mut store), Ok(UndoStatus::RevertedCheckOut));
    assert!(store.is_present(1));
    assert_eq!(first.len(), 1);
}

#[test]
fn an_undo_whose_event_is_gone_still_reports() {
    let mut store = store_with(&["Ann"]);
    assert_eq!(
        apply_undo(&mut store, UndoAction::CheckIn { checkin_id: 42 }),
        Ok(UndoStatus::RevertedCheckIn)
    );
    assert_eq!(
        apply_undo(&mut store, UndoAction::CheckOut { checkin_id: 42 }),
        Ok(UndoStatus::RevertedCheckOut)
    );
    assert_eq!(
        apply_undo(&mut store, UndoAction::ForcedCheckOut { checkin_id: 42 }),
        Ok(UndoStatus::RevertedCheckOut)
    );
    assert!(store.events().is_empty());
}

#[test]
fn event_numbers_are_not_given_twice() {
    let mut store = store_with(&["Ann"]);
    let mut stack = UndoStack::new();
    toggle_at(&mut stack, &mut store, 1, ToggleAction::In, None, false, "09:00:00 AM".to_string())
        .unwrap();
    undo_last(&mut stack, &mut store).unwrap();
    let outcome = check_in(&mut store, 1, None, "09:30:00 AM".to_string()).unwrap();
    assert_eq!(outcome.undo, Some(UndoAction::CheckIn { checkin_id: 2 }));
}

#[test]
fn parse_action_reads_in_and_out() {
    assert_eq!(parse_action("in"), Some(ToggleAction::In));
    assert_eq!(parse_action("IN"), Some(ToggleAction::In));
    assert_eq!(parse_action("Out"), Some(ToggleAction::Out));
    assert_eq!(parse_action("toggle"), None);
    assert_eq!(parse_action(""), None);
    assert_eq!(parse_action(" in"), None);
}

#[test]
fn toggle_checkin_refuses_an_unknown_action() {
    let mut store = store_with(&["Ann"]);
    let mut stack = UndoStack::new();
    let out = toggle_checkin(&mut stack, &mut store, 1, "sideways", None, None);
    assert_eq!(out, Err(ToggleError::InvalidAction));
    assert!(store.events().is_empty());
    assert!(stack.is_empty());
}

#[test]
fn toggle_checkin_stamps_the_current_time() {
    let mut store = store_with(&["Ann"]);
    let mut stack = UndoStack::new();
    let out = toggle_checkin(&mut stack, &mut store, 1, "In", some("door"), None);
    assert_eq!(out, Ok(ToggleStatus::CheckedIn));
    assert_eq!(store.events().len(), 1);
    let stamp = &store.events()[0].in_ts;
    assert_eq!(stamp.len(), 11);
    assert!(stamp.ends_with("AM") || stamp.ends_with("PM"));
    assert_eq!(store.events()[0].in_by, some("door"));
    assert_eq!(stack.len(), 1);
    let out = toggle_checkin(&mut stack, &mut store, 1, "OUT", None, Some(true));
    assert_eq!(out, Ok(ToggleStatus::CheckedOut));
    assert!(!store.is_present(1));
    assert_eq!(stack.len(), 2);
    assert_eq!(
        toggle_checkin(&mut stack, &mut store, 5, "in", None, None),
        Err(ToggleError::Store(StoreError::UnknownGuest))
    );
}

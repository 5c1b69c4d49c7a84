use party_sign_in::import::{parse_import_flag, parse_import_timestamp, plan_import_history,
    read_clock_time, VisitPlan};
use party_sign_in::clock::ClockTime;

fn some(text: &str) -> Option<String> {
    Some(text.to_string())
}

#[test]
fn parse_import_flag_accepts_the_words_for_yes() {
    for word in ["y", "yes", "true", "1", "checked", "in"] {
        assert!(parse_import_flag(Some(word)), "{}", word);
    }
    assert!(parse_import_flag(Some("  YES \n")));
    assert!(parse_import_flag(Some("Checked")));
    assert!(parse_import_flag(Some("TRUE")));
}

#[test]
fn parse_import_flag_rejects_everything_else() {
    assert!(!parse_import_flag(None));
    assert!(!parse_import_flag(Some("")));
    assert!(!parse_import_flag(Some("   ")));
    assert!(!parse_import_flag(Some("no")));
    assert!(!parse_import_flag(Some("0")));
    assert!(!parse_import_flag(Some("out")));
    assert!(!parse_import_flag(Some("yess")));
    assert!(!parse_import_flag(Some("y e s")));
}

#[test]
fn parse_import_flag_lowers_case_as_unicode_does() {
    // the Kelvin sign is a capital of `k`
    assert!(parse_import_flag(Some("CHEC\u{212a}ED")));
}

#[test]
fn parse_import_timestamp_normalizes_every_form() {
    let wanted = some("02:30:00 PM");
    assert_eq!(parse_import_timestamp(Some("2:30 PM")), wanted);
    assert_eq!(parse_import_timestamp(Some("14:30")), wanted);
    assert_eq!(parse_import_timestamp(Some("14:30:00")), wanted);
    assert_eq!(parse_import_timestamp(Some("2024-01-05T14:30:00-06:00")), wanted);
    assert_eq!(parse_import_timestamp(Some("2024-01-05T20:30:00Z")), wanted);
    assert_eq!(parse_import_timestamp(Some("02:30:00 PM")), wanted);
    assert_eq!(parse_import_timestamp(Some("0230PM")), wanted);
    assert_eq!(parse_import_timestamp(Some("143000")), wanted);
    assert_eq!(parse_import_timestamp(Some("2024-01-05 14:30:00")), wanted);
    assert_eq!(parse_import_timestamp(Some("2024-01-05T14:30:00")), wanted);
    assert_eq!(parse_import_timestamp(Some("01/05/2024 02:30:00 PM")), wanted);
    assert_eq!(parse_import_timestamp(Some("01/05/2024 2:30 PM")), wanted);
    assert_eq!(parse_import_timestamp(Some("01/05/2024 14:30:00")), wanted);
    assert_eq!(parse_import_timestamp(Some("01/05/2024 14:30")), wanted);
    assert_eq!(parse_import_timestamp(Some("   14:30  ")), wanted);
}

#[test]
fn parse_import_timestamp_moves_an_instant_to_chicago() {
    // daylight saving time: five hours behind UTC
    assert_eq!(parse_import_timestamp(Some("2024-07-05T14:30:00Z")), some("09:30:00 AM"));
    // standard time: six hours behind UTC
    assert_eq!(parse_import_timestamp(Some("2024-01-05T14:30:00Z")), some("08:30:00 AM"));
    assert_eq!(parse_import_timestamp(Some("2024-01-05T03:15:20+00:00")), some("09:15:20 PM"));
}

#[test]
fn parse_import_timestamp_gives_nothing_for_unreadable_text() {
    assert_eq!(parse_import_timestamp(None), None);
    assert_eq!(parse_import_timestamp(Some("")), None);
    assert_eq!(parse_import_timestamp(Some("   ")), None);
    assert_eq!(parse_import_timestamp(Some("noon")), None);
    assert_eq!(parse_import_timestamp(Some("25:00")), None);
    assert_eq!(parse_import_timestamp(Some("14:60")), None);
}

#[test]
fn read_clock_time_gives_the_fields() {
    assert_eq!(
        read_clock_time("07:08:09"),
        Some(ClockTime { hour: 7, minute: 8, second: 9, nanosecond: 0 })
    );
    assert_eq!(
        read_clock_time("12:00 AM"),
        Some(ClockTime { hour: 0, minute: 0, second: 0, nanosecond: 0 })
    );
    assert_eq!(read_clock_time("later"), None);
}

#[test]
fn plan_import_history_without_signals_plans_nothing() {
    assert_eq!(plan_import_history(false, false, None, None, "01:00:00 PM"), None);
}

#[test]
fn plan_import_history_with_a_check_in_flag_opens_now() {
    assert_eq!(
        plan_import_history(true, false, None, None, "01:00:00 PM"),
        Some(VisitPlan { in_ts: "01:00:00 PM".to_string(), out_ts: None })
    );
}

#[test]
fn plan_import_history_with_a_check_in_time_opens_then() {
    assert_eq!(
        plan_import_history(false, false, some("09:00:00 AM"), None, "01:00:00 PM"),
        Some(VisitPlan { in_ts: "09:00:00 AM".to_string(), out_ts: None })
    );
}

#[test]
fn plan_import_history_with_a_check_out_flag_closes_at_the_start() {
    assert_eq!(
        plan_import_history(false, true, None, None, "01:00:00 PM"),
        Some(VisitPlan { in_ts: "01:00:00 PM".to_string(), out_ts: some("01:00:00 PM") })
    );
    assert_eq!(
        plan_import_history(true, true, some("09:00:00 AM"), None, "01:00:00 PM"),
        Some(VisitPlan { in_ts: "09:00:00 AM".to_string(), out_ts: some("09:00:00 AM") })
    );
}

#[test]
fn plan_import_history_with_a_check_out_time_alone_uses_it_twice() {
    assert_eq!(
        plan_import_history(false, false, None, some("11:00:00 AM"), "01:00:00 PM"),
        Some(VisitPlan { in_ts: "11:00:00 AM".to_string(), out_ts: some("11:00:00 AM") })
    );
}

#[test]
fn plan_import_history_with_both_times_keeps_both() {
    assert_eq!(
        plan_import_history(true, false, some("09:00:00 AM"), some("11:00:00 AM"), "01:00:00 PM"),
        Some(VisitPlan { in_ts: "09:00:00 AM".to_string(), out_ts: some("11:00:00 AM") })
    );
}

#[test]
fn plan_import_history_replaces_an_empty_end_by_now() {
    assert_eq!(
        plan_import_history(false, false, some("09:00:00 AM"), some(""), "01:00:00 PM"),
        Some(VisitPlan { in_ts: "09:00:00 AM".to_string(), out_ts: some("01:00:00 PM") })
    );
}

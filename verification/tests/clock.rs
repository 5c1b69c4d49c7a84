use party_sign_in::clock::{central_now_time_string, stamp_string, time_string, ClockTime,
    LocalDateTime};
use party_sign_in::export::{export_filename, export_filename_at};

fn at(hour: u32, minute: u32, second: u32) -> ClockTime {
    ClockTime { hour, minute, second, nanosecond: 0 }
}

#[test]
fn time_string_uses_the_twelve_hour_clock() {
    assert_eq!(time_string(at(0, 0, 0)), "12:00:00 AM");
    assert_eq!(time_string(at(0, 5, 9)), "12:05:09 AM");
    assert_eq!(time_string(at(9, 7, 3)), "09:07:03 AM");
    assert_eq!(time_string(at(11, 59, 59)), "11:59:59 AM");
    assert_eq!(time_string(at(12, 0, 0)), "12:00:00 PM");
    assert_eq!(time_string(at(14, 30, 0)), "02:30:00 PM");
    assert_eq!(time_string(at(23, 59, 59)), "11:59:59 PM");
}

#[test]
fn time_string_writes_a_leap_second_as_sixty() {
    let leap = ClockTime { hour: 23, minute: 59, second: 59, nanosecond: 1_000_000_000 };
    assert_eq!(time_string(leap), "11:59:60 PM");
    let almost = ClockTime { hour: 23, minute: 59, second: 59, nanosecond: 999_999_999 };
    assert_eq!(time_string(almost), "11:59:59 PM");
}

#[test]
fn stamp_string_writes_date_and_time() {
    let moment = LocalDateTime { year: 2024, month: 1, day: 5, time: at(14, 30, 7) };
    assert_eq!(stamp_string(moment), "20240105-143007");
    let early = LocalDateTime { year: 987, month: 12, day: 31, time: at(0, 0, 0) };
    assert_eq!(stamp_string(early), "09871231-000000");
}

#[test]
fn stamp_string_signs_years_out_of_range() {
    let far = LocalDateTime { year: 12345, month: 6, day: 7, time: at(1, 2, 3) };
    assert_eq!(stamp_string(far), "+123450607-010203");
    let past = LocalDateTime { year: -5, month: 6, day: 7, time: at(1, 2, 3) };
    assert_eq!(stamp_string(past), "-00050607-010203");
}

#[test]
fn export_filename_at_frames_the_stamp() {
    let moment = LocalDateTime { year: 2024, month: 11, day: 30, time: at(8, 5, 0) };
    assert_eq!(export_filename_at(moment), "party-sign-in-20241130-080500.csv");
}

#[test]
fn central_now_time_string_has_the_stored_form() {
    let now = central_now_time_string();
    let chars: Vec<char> = now.chars().collect();
    assert_eq!(chars.len(), 11);
    assert_eq!(chars[2], ':');
    assert_eq!(chars[5], ':');
    assert_eq!(chars[8], ' ');
    assert!(now.ends_with("AM") || now.ends_with("PM"));
    let hour: u32 = now[0..2].parse().unwrap();
    assert!((1..=12).contains(&hour));
}

#[test]
fn export_filename_has_the_stamped_form() {
    let name = export_filename();
    assert!(name.starts_with("party-sign-in-"));
    assert!(name.ends_with(".csv"));
    assert_eq!(name.len(), "party-sign-in-20240105-143007.csv".len());
}

use chrono::{NaiveDate, NaiveTime};
use party_sign_in::clock::{stamp_string, time_string, ClockTime, LocalDateTime};
use party_sign_in::names::{clean_token, clean_whitespace, fts_escape};
use party_sign_in::search::tokens_of;

const SAMPLES: [&str; 14] = [
    "",
    " ",
    "Jo",
    "  Jo  Ann ",
    "O'Brien-Smith 3rd",
    "\tMARY\u{a0}LOU\n",
    "jos\u{e9} \u{c9}mile",
    "a\"b\"\"c",
    "x\u{2003}y\u{3000}z",
    "--  ??",
    "\u{130}stanbul \u{212a}elvin",
    "tab\tnew\nline\r\nend",
    "   ",
    "A1 b2 C3",
];

#[test]
fn time_string_agrees_with_chrono_on_every_second() {
    for hour in 0..24 {
        for minute in 0..60 {
            for second in 0..60 {
                let written = NaiveTime::from_hms_opt(hour, minute, second)
                    .unwrap()
                    .format("%I:%M:%S %p")
                    .to_string();
                let ours = time_string(ClockTime { hour, minute, second, nanosecond: 0 });
                assert_eq!(ours, written);
            }
        }
    }
}

#[test]
fn time_string_agrees_with_chrono_on_leap_seconds() {
    for (hour, minute, nanosecond) in [(23, 59, 1_000_000_000u32), (0, 0, 1_999_999_999), (12, 30, 1_500_000_000)] {
        let written = NaiveTime::from_hms_nano_opt(hour, minute, 59, nanosecond)
            .unwrap()
            .format("%I:%M:%S %p")
            .to_string();
        let ours = time_string(ClockTime { hour, minute, second: 59, nanosecond });
        assert_eq!(ours, written);
    }
}

#[test]
fn stamp_string_agrees_with_chrono() {
    let years = [-262_143, -10_000, -9_999, -1_000, -999, -1, 0, 1, 9, 10, 99, 100, 999, 1_000, 1_969, 2_024, 9_999, 10_000, 99_999, 262_142];
    for year in years {
        for (month, day) in [(1, 1), (2, 28), (10, 9), (12, 31)] {
            for (hour, minute, second) in [(0, 0, 0), (9, 5, 7), (23, 59, 59)] {
                let written = NaiveDate::from_ymd_opt(year, month, day)
                    .unwrap()
                    .and_hms_opt(hour, minute, second)
                    .unwrap()
                    .format("%Y%m%d-%H%M%S")
                    .to_string();
                let ours = stamp_string(LocalDateTime {
                    year,
                    month,
                    day,
                    time: ClockTime { hour, minute, second, nanosecond: 0 },
                });
                assert_eq!(ours, written, "{}", year);
            }
        }
    }
}

#[test]
fn clean_whitespace_keeps_what_trim_keeps() {
    for text in SAMPLES {
        let cleaned = clean_whitespace(text);
        let words: Vec<&str> = text.split_whitespace().collect();
        assert_eq!(cleaned, words.join(" "), "{:?}", text);
    }
}

#[test]
fn clean_token_agrees_with_filtering_and_lowering() {
    for text in SAMPLES {
        let by_std =
            text.chars().filter(|c| c.is_ascii_alphanumeric()).collect::<String>().to_lowercase();
        assert_eq!(clean_token(text), by_std, "{:?}", text);
    }
}

#[test]
fn tokens_of_agrees_with_splitting_on_white_space() {
    for text in SAMPLES {
        let by_std: Vec<Vec<char>> = text
            .trim()
            .split_whitespace()
            .map(clean_token)
            .filter(|t| !t.is_empty())
            .map(|t| t.chars().collect())
            .collect();
        assert_eq!(tokens_of(text), by_std, "{:?}", text);
    }
}

#[test]
fn fts_escape_agrees_with_replacing() {
    for text in SAMPLES {
        assert_eq!(fts_escape(text), text.replace('"', "\"\""), "{:?}", text);
    }
}

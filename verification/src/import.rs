//! Reading bulk records: flags, free-form times, and the one visit that a
//! record stands for.
//!
//! Each raw field has one documented reading, given by a spec function:
//! [`flag_model`] for a flag, [`timestamp_model`] for a time,
//! [`history_model`] for the visit.

use vstd::prelude::*;
use crate::clock::{ClockTime, naive_date_time_parse, naive_time_parse, parse_naive_date_time,
    parse_naive_time, parse_rfc3339_chicago, rfc3339_chicago_parse, time_string, time_text};
use crate::text::{chars_of, lowercase_of, same_text, str_lowercase, string_of, trim_text,
    trimmed};

verus! {

/// The visit that a record stands for: when it began and, where it is
/// over, when it ended.
#[derive(Debug, Clone, PartialEq, Eq)]
pub struct VisitPlan {
    pub in_ts: String,
    pub out_ts: Option<String>,
}

/// The model of a [`VisitPlan`].
pub struct VisitView {
    pub in_ts: Seq<char>,
    pub out_ts: Option<Seq<char>>,
}

impl View for VisitPlan {
    type V = VisitView;

    open spec fn view(&self) -> VisitView {
        VisitView { in_ts: self.in_ts@, out_ts: crate::store::text_view(self.out_ts) }
    }
}

/// The model of an optional visit.
pub open spec fn visit_view(plan: Option<VisitPlan>) -> Option<VisitView> {
    match plan {
        Some(p) => Some(p@),
        None => None,
    }
}

/// The model of an optional borrowed text.
pub open spec fn str_view(text: Option<&str>) -> Option<Seq<char>> {
    match text {
        Some(s) => Some(s@),
        None => None,
    }
}

/// Whether a lower-case text is one of the words that mean yes.
pub open spec fn is_truthy(word: Seq<char>) -> bool {
    word == "y"@ || word == "yes"@ || word == "true"@ || word == "1"@ || word == "checked"@
        || word == "in"@
}

/// The reading of a flag: true for one of the words that mean yes, white
/// space around it and letter case set aside; false for anything else and
/// for an absent flag.
pub open spec fn flag_model(value: Option<Seq<char>>) -> bool {
    match value {
        Some(v) => is_truthy(str_lowercase(trimmed(v))),
        None => false,
    }
}

/// The first of two readings that succeeded.
pub open spec fn first_some(a: Option<ClockTime>, b: Option<ClockTime>) -> Option<ClockTime> {
    if a is Some {
        a
    } else {
        b
    }
}

/// The reading of `raw` as a time alone, under the first format that
/// accepts it.
pub open spec fn read_time_only(raw: Seq<char>) -> Option<ClockTime> {
    first_some(
        first_some(
            first_some(
                first_some(
                    first_some(
                        naive_time_parse(raw, "%I:%M:%S %p"@),
                        naive_time_parse(raw, "%I:%M %p"@),
                    ),
                    naive_time_parse(raw, "%H:%M:%S"@),
                ),
                naive_time_parse(raw, "%H:%M"@),
            ),
            naive_time_parse(raw, "%I%M%p"@),
        ),
        naive_time_parse(raw, "%H%M%S"@),
    )
}

/// The reading of `raw` as a date with a time, under the first format that
/// accepts it.
pub open spec fn read_date_time(raw: Seq<char>) -> Option<ClockTime> {
    first_some(
        first_some(
            first_some(
                first_some(
                    first_some(
                        naive_date_time_parse(raw, "%Y-%m-%d %H:%M:%S"@),
                        naive_date_time_parse(raw, "%Y-%m-%dT%H:%M:%S"@),
                    ),
                    naive_date_time_parse(raw, "%m/%d/%Y %I:%M:%S %p"@),
                ),
                naive_date_time_parse(raw, "%m/%d/%Y %I:%M %p"@),
            ),
            naive_date_time_parse(raw, "%m/%d/%Y %H:%M:%S"@),
        ),
        naive_date_time_parse(raw, "%m/%d/%Y %H:%M"@),
    )
}

/// The reading of `raw` as a time of day: as a time alone, else as a date
/// with a time, else as a timestamp with its zone, moved to Chicago.
pub open spec fn read_time(raw: Seq<char>) -> Option<ClockTime> {
    first_some(first_some(read_time_only(raw), read_date_time(raw)), rfc3339_chicago_parse(raw))
}

/// The reading of a free-form time: the time of day that the trimmed text
/// gives, written as the store keeps it; nothing for an absent, empty or
/// unreadable text.
pub open spec fn timestamp_model(value: Option<Seq<char>>) -> Option<Seq<char>> {
    match value {
        Some(v) => if trimmed(v).len() == 0 {
            None
        } else {
            match read_time(trimmed(v)) {
                Some(t) => Some(time_text(t)),
                None => None,
            }
        },
        None => None,
    }
}

/// The first of two optional texts that is there.
pub open spec fn or_text(a: Option<Seq<char>>, b: Option<Seq<char>>) -> Option<Seq<char>> {
    if a is Some {
        a
    } else {
        b
    }
}

/// The visit that the four signals of a record stand for, `now` being the
/// current time.
///
/// Without any signal there is no visit. Otherwise the visit began at the
/// check-in time, else at the check-out time, else now. It is over if the
/// check-out flag is set or a check-out time is given, and then ended at
/// the check-out time, else when it began; an empty text there gives way to
/// now.
pub open spec fn history_model(
    check_in_flag: bool,
    check_out_flag: bool,
    check_in_time: Option<Seq<char>>,
    check_out_time: Option<Seq<char>>,
    now: Seq<char>,
) -> Option<VisitView> {
    if !(check_in_flag || check_out_flag || check_in_time is Some || check_out_time is Some) {
        None
    } else {
        let in_ts = or_text(or_text(check_in_time, check_out_time), Some(now))->0;
        let ended = or_text(check_out_time, Some(in_ts))->0;
        Some(
            VisitView {
                in_ts,
                out_ts: if check_out_flag || check_out_time is Some {
                    Some(
                        if ended.len() == 0 {
                            now
                        } else {
                            ended
                        },
                    )
                } else {
                    None
                },
            },
        )
    }
}

/// Whether `value` is one of the words that mean yes.
pub fn parse_import_flag(value: Option<&str>) -> (flag: bool)
    ensures
        flag == flag_model(str_view(value)),
{
    match value {
        None => false,
        Some(v) => {
            let kept = string_of(&trim_text(&chars_of(v)));
            let word = chars_of(lowercase_of(kept.as_str()).as_str());
            same_text(&word, &chars_of("y")) || same_text(&word, &chars_of("yes")) || same_text(
                &word,
                &chars_of("true"),
            ) || same_text(&word, &chars_of("1")) || same_text(&word, &chars_of("checked"))
                || same_text(&word, &chars_of("in"))
        },
    }
}

/// Tries one more format for a time alone, unless a reading is there.
fn or_time_only(found: Option<ClockTime>, raw: &str, format: &str) -> (out: Option<ClockTime>)
    requires
        found matches Some(t) ==> t.valid(),
    ensures
        out == first_some(found, naive_time_parse(raw@, format@)),
        out matches Some(t) ==> t.valid(),
{
    if found.is_some() {
        found
    } else {
        parse_naive_time(raw, format)
    }
}

/// Tries one more format for a date with a time, unless a reading is
/// there.
fn or_date_time(found: Option<ClockTime>, raw: &str, format: &str) -> (out: Option<ClockTime>)
    requires
        found matches Some(t) ==> t.valid(),
    ensures
        out == first_some(found, naive_date_time_parse(raw@, format@)),
        out matches Some(t) ==> t.valid(),
{
    if found.is_some() {
        found
    } else {
        parse_naive_date_time(raw, format)
    }
}

/// The time of day that `raw` gives, under the first reading that accepts
/// it.
pub fn read_clock_time(raw: &str) -> (out: Option<ClockTime>)
    ensures
        out == read_time(raw@),
        out matches Some(t) ==> t.valid(),
{
    let mut found = parse_naive_time(raw, "%I:%M:%S %p");
    found = or_time_only(found, raw, "%I:%M %p");
    found = or_time_only(found, raw, "%H:%M:%S");
    found = or_time_only(found, raw, "%H:%M");
    found = or_time_only(found, raw, "%I%M%p");
    found = or_time_only(found, raw, "%H%M%S");
    if found.is_some() {
        return found;
    }
    let mut dated = parse_naive_date_time(raw, "%Y-%m-%d %H:%M:%S");
    dated = or_date_time(dated, raw, "%Y-%m-%dT%H:%M:%S");
    dated = or_date_time(dated, raw, "%m/%d/%Y %I:%M:%S %p");
    dated = or_date_time(dated, raw, "%m/%d/%Y %I:%M %p");
    dated = or_date_time(dated, raw, "%m/%d/%Y %H:%M:%S");
    dated = or_date_time(dated, raw, "%m/%d/%Y %H:%M");
    if dated.is_some() {
        dated
    } else {
        parse_rfc3339_chicago(raw)
    }
}

/// Reads a free-form time and writes it as the store keeps it; `None` for
/// an absent, empty or unreadable text.
pub fn parse_import_timestamp(value: Option<&str>) -> (out: Option<String>)
    ensures
        crate::store::text_view(out) == timestamp_model(str_view(value)),
{
    match value {
        None => None,
        Some(v) => {
            let kept = trim_text(&chars_of(v));
            if kept.len() == 0 {
                return None;
            }
            match read_clock_time(string_of(&kept).as_str()) {
                Some(t) => Some(time_string(t)),
                None => None,
            }
        },
    }
}

/// The visit that the four signals of a record stand for, `now` being the
/// current time.
pub fn plan_import_history(
    check_in_flag: bool,
    check_out_flag: bool,
    check_in_time: Option<String>,
    check_out_time: Option<String>,
    now: &str,
) -> (out: Option<VisitPlan>)
    ensures
        visit_view(out) == history_model(
            check_in_flag,
            check_out_flag,
            crate::store::text_view(check_in_time),
            crate::store::text_view(check_out_time),
            now@,
        ),
{
    if !(check_in_flag || check_out_flag || check_in_time.is_some() || check_out_time.is_some()) {
        return None;
    }
    let closing = check_out_flag || check_out_time.is_some();
    let in_ts: String = match check_in_time {
        Some(t) => t,
        None => match &check_out_time {
            Some(t) => t.clone(),
            None => now.to_owned(),
        },
    };
    let out_ts: Option<String> = if closing {
        let ended: String = match check_out_time {
            Some(t) => t,
            None => in_ts.clone(),
        };
        if ended.as_str().unicode_len() == 0 {
            Some(now.to_owned())
        } else {
            Some(ended)
        }
    } else {
        None
    };
    Some(VisitPlan { in_ts, out_ts })
}

} // verus!

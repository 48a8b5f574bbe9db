use vstd::prelude::*;
use chrono::Datelike;
use chrono::Timelike;
use crate::numfmt::{digit_char, spec_decimal, spec_pad2, decimal_string, pad2_string, push_char};
use vstd::string::StringExecFns;

verus! {

/// A wall-clock instant, split into calendar fields.
pub struct Timestamp {
    pub year: i32,
    pub month: u32,
    pub day: u32,
    pub hour: u32,
    pub minute: u32,
    pub second: u32,
}

impl Timestamp {
    /// The field ranges of a calendar timestamp: 1-based month and day,
    /// and a 24-hour clock.
    pub open spec fn wf(self) -> bool {
        &&& 1 <= self.month <= 12
        &&& 1 <= self.day <= 31
        &&& self.hour <= 23
        &&& self.minute <= 59
        &&& self.second <= 59
    }
}

/// Reads the local wall clock.
///
/// Relies on chrono's Local::now together with the Datelike and Timelike
/// accessors: month ranges over 1..=12, day over 1..=31, hour over 0..=23,
/// minute and second over 0..=59.
#[verifier::external_body]
fn read_local_clock() -> (t: Timestamp)
    ensures
        t.wf(),
{
    let now = chrono::Local::now();
    Timestamp {
        year: now.year(),
        month: now.month(),
        day: now.day(),
        hour: now.hour(),
        minute: now.minute(),
        second: now.second(),
    }
}

/// The current local time, with calendar fields in their ranges.
pub fn current_timestamp() -> (t: Timestamp)
    ensures
        t.wf(),
{
    read_local_clock()
}

/// A year number rendered for a timestamp: zero-padded to four digits,
/// wider once a magnitude needs more, with a leading minus sign for years
/// before year zero.
pub open spec fn spec_year(y: int) -> Seq<char> {
    if y < 0 {
        seq!['-'] + spec_year_mag(-y)
    } else {
        spec_year_mag(y)
    }
}

/// The digits of a nonnegative year, zero-padded to four.
pub open spec fn spec_year_mag(y: int) -> Seq<char>
    recommends
        y >= 0,
{
    if y < 10000 {
        seq![
            digit_char(y / 1000),
            digit_char((y / 100) % 10),
            digit_char((y / 10) % 10),
            digit_char(y % 10),
        ]
    } else {
        spec_decimal(y as nat)
    }
}

/// A timestamp rendered as date and time of day: four-or-more-digit
/// year, then two digits for each other field, as in
/// `2024-06-01 14:23:05`.
pub open spec fn spec_timestamp(t: Timestamp) -> Seq<char>
    recommends
        t.wf(),
{
    spec_year(t.year as int) + seq!['-'] + spec_pad2(t.month as int) + seq!['-'] + spec_pad2(
        t.day as int,
    ) + seq![' '] + spec_pad2(t.hour as int) + seq![':'] + spec_pad2(t.minute as int) + seq![':']
        + spec_pad2(t.second as int)
}

fn year_string(y: i32) -> (s: String)
    ensures
        s@ == spec_year(y as int),
{
    let mut s = String::new();
    let m: u64 = if y < 0 {
        push_char(&mut s, '-');
        (-(y as i64)) as u64
    } else {
        y as u64
    };
    if m < 10000 {
        push_char(&mut s, crate::numfmt::digit_to_char(m / 1000));
        push_char(&mut s, crate::numfmt::digit_to_char((m / 100) % 10));
        push_char(&mut s, crate::numfmt::digit_to_char((m / 10) % 10));
        push_char(&mut s, crate::numfmt::digit_to_char(m % 10));
    } else {
        let d = decimal_string(m);
        s.append(d.as_str());
    }
    proof {
        assert(s@ =~= spec_year(y as int));
    }
    s
}

/// Renders a timestamp as `year-month-day hour:minute:second`, each
/// field two digits past the four-or-more-digit year.
pub fn format_timestamp(t: &Timestamp) -> (s: String)
    requires
        t.wf(),
    ensures
        s@ == spec_timestamp(*t),
{
    let mut s = year_string(t.year);
    push_char(&mut s, '-');
    let part = pad2_string(t.month as u64);
    s.append(part.as_str());
    push_char(&mut s, '-');
    let part = pad2_string(t.day as u64);
    s.append(part.as_str());
    push_char(&mut s, ' ');
    let part = pad2_string(t.hour as u64);
    s.append(part.as_str());
    push_char(&mut s, ':');
    let part = pad2_string(t.minute as u64);
    s.append(part.as_str());
    push_char(&mut s, ':');
    let part = pad2_string(t.second as u64);
    s.append(part.as_str());
    proof {
        assert(s@ =~= spec_timestamp(*t));
    }
    s
}

} // verus!

//! The clock plugin: its entries are the current wall-clock time and
//! date, rendered as text. The calendar arithmetic lives with the
//! outside clock; everything from calendar fields to entry text is
//! verified here.

use vstd::prelude::*;

use chrono::{Datelike, Timelike};

use crate::model::{Entry, EntryView};
use crate::text::string_from_chars;
use crate::worker::PluginWorker;

verus! {

/// One instant of local time, decomposed into calendar fields.
/// `weekday` counts days from Monday, so Monday is `0` and Sunday `6`.
#[derive(Clone, Copy)]
pub struct ClockTime {
    pub year: u32,
    pub month: u32,
    pub day: u32,
    pub weekday: u32,
    pub hour: u32,
    pub minute: u32,
    pub second: u32,
}

impl ClockTime {
    /// Every field within its calendar range.
    pub open spec fn wf(&self) -> bool {
        &&& 1 <= self.month <= 12
        &&& 1 <= self.day <= 31
        &&& self.weekday < 7
        &&& self.hour < 24
        &&& self.minute < 60
        &&& self.second < 60
    }
}

/// The decimal digit character for one value below ten.
pub open spec fn digit(d: u32) -> char {
    if d == 0 {
        '0'
    } else if d == 1 {
        '1'
    } else if d == 2 {
        '2'
    } else if d == 3 {
        '3'
    } else if d == 4 {
        '4'
    } else if d == 5 {
        '5'
    } else if d == 6 {
        '6'
    } else if d == 7 {
        '7'
    } else if d == 8 {
        '8'
    } else {
        '9'
    }
}

/// A value below one hundred as two digits, zero-padded.
pub open spec fn two_digits(n: u32) -> Seq<char> {
    seq![digit(n / 10), digit(n % 10)]
}

/// A value in plain decimal, without leading zeros.
pub open spec fn decimal(n: u32) -> Seq<char>
    decreases n,
{
    if n < 10 {
        seq![digit(n)]
    } else {
        decimal(n / 10).push(digit(n % 10))
    }
}

/// A day of the month, space-padded to two columns.
pub open spec fn padded_day(d: u32) -> Seq<char> {
    if d < 10 {
        seq![' ', digit(d)]
    } else {
        decimal(d)
    }
}

/// The full weekday name, Monday first.
pub open spec fn weekday_name(w: u32) -> Seq<char> {
    if w == 0 {
        "Monday"@
    } else if w == 1 {
        "Tuesday"@
    } else if w == 2 {
        "Wednesday"@
    } else if w == 3 {
        "Thursday"@
    } else if w == 4 {
        "Friday"@
    } else if w == 5 {
        "Saturday"@
    } else {
        "Sunday"@
    }
}

/// The full month name.
pub open spec fn month_name(m: u32) -> Seq<char> {
    if m <= 1 {
        "January"@
    } else if m == 2 {
        "February"@
    } else if m == 3 {
        "March"@
    } else if m == 4 {
        "April"@
    } else if m == 5 {
        "May"@
    } else if m == 6 {
        "June"@
    } else if m == 7 {
        "July"@
    } else if m == 8 {
        "August"@
    } else if m == 9 {
        "September"@
    } else if m == 10 {
        "October"@
    } else if m == 11 {
        "November"@
    } else {
        "December"@
    }
}

/// The time entry's title: `HH:MM:SS`.
pub open spec fn time_title(t: ClockTime) -> Seq<char> {
    two_digits(t.hour) + seq![':'] + two_digits(t.minute) + seq![':'] + two_digits(t.second)
}

/// The date entry's title: `<weekday>, <day>. <month> <year>`, the day
/// space-padded to two columns.
pub open spec fn date_title(t: ClockTime) -> Seq<char> {
    weekday_name(t.weekday) + ", "@ + padded_day(t.day) + ". "@ + month_name(t.month) + " "@
        + decimal(t.year)
}

/// Exactly the two entries the clock plugin presents for one instant.
pub open spec fn clock_entry_views(t: ClockTime) -> Seq<EntryView> {
    seq![
        EntryView { id: "time-entry"@, title: time_title(t), action: ""@, meta: "Clock Time"@ },
        EntryView { id: "date"@, title: date_title(t), action: ""@, meta: "Clock Date"@ },
    ]
}

fn digit_exec(d: u32) -> (c: char)
    requires
        d < 10,
    ensures
        c == digit(d),
{
    if d == 0 {
        '0'
    } else if d == 1 {
        '1'
    } else if d == 2 {
        '2'
    } else if d == 3 {
        '3'
    } else if d == 4 {
        '4'
    } else if d == 5 {
        '5'
    } else if d == 6 {
        '6'
    } else if d == 7 {
        '7'
    } else if d == 8 {
        '8'
    } else {
        '9'
    }
}

fn push_two_digits(v: &mut Vec<char>, n: u32)
    requires
        n < 100,
    ensures
        final(v)@ == old(v)@ + two_digits(n),
{
    v.push(digit_exec(n / 10));
    v.push(digit_exec(n % 10));
    proof {
        assert(v@ =~= old(v)@ + two_digits(n));
    }
}

fn push_decimal(v: &mut Vec<char>, n: u32)
    ensures
        final(v)@ == old(v)@ + decimal(n),
    decreases n,
{
    if n < 10 {
        v.push(digit_exec(n));
        proof {
            assert(v@ =~= old(v)@ + decimal(n));
        }
    } else {
        push_decimal(v, n / 10);
        v.push(digit_exec(n % 10));
        proof {
            assert(v@ =~= old(v)@ + decimal(n));
        }
    }
}

/// The `HH:MM:SS` title, built digit by digit.
pub fn time_title_exec(t: &ClockTime) -> (r: String)
    requires
        t.wf(),
    ensures
        r@ == time_title(*t),
{
    let mut v: Vec<char> = Vec::new();
    push_two_digits(&mut v, t.hour);
    v.push(':');
    push_two_digits(&mut v, t.minute);
    v.push(':');
    push_two_digits(&mut v, t.second);
    proof {
        assert(v@ =~= time_title(*t));
    }
    string_from_chars(&v)
}

fn weekday_string(w: u32) -> (r: String)
    requires
        w < 7,
    ensures
        r@ == weekday_name(w),
{
    if w == 0 {
        String::from_str("Monday")
    } else if w == 1 {
        String::from_str("Tuesday")
    } else if w == 2 {
        String::from_str("Wednesday")
    } else if w == 3 {
        String::from_str("Thursday")
    } else if w == 4 {
        String::from_str("Friday")
    } else if w == 5 {
        String::from_str("Saturday")
    } else {
        String::from_str("Sunday")
    }
}

fn month_string(m: u32) -> (r: String)
    ensures
        r@ == month_name(m),
{
    if m <= 1 {
        String::from_str("January")
    } else if m == 2 {
        String::from_str("February")
    } else if m == 3 {
        String::from_str("March")
    } else if m == 4 {
        String::from_str("April")
    } else if m == 5 {
        String::from_str("May")
    } else if m == 6 {
        String::from_str("June")
    } else if m == 7 {
        String::from_str("July")
    } else if m == 8 {
        String::from_str("August")
    } else if m == 9 {
        String::from_str("September")
    } else if m == 10 {
        String::from_str("October")
    } else if m == 11 {
        String::from_str("November")
    } else {
        String::from_str("December")
    }
}

/// The `<weekday>, <day>. <month> <year>` title.
pub fn date_title_exec(t: &ClockTime) -> (r: String)
    requires
        t.wf(),
    ensures
        r@ == date_title(*t),
{
    let mut v: Vec<char> = Vec::new();
    let wd = weekday_string(t.weekday);
    crate::text::append_str_chars(&mut v, wd.as_str());
    crate::text::append_str_chars(&mut v, ", ");
    if t.day < 10 {
        v.push(' ');
        v.push(digit_exec(t.day));
    } else {
        push_decimal(&mut v, t.day);
    }
    crate::text::append_str_chars(&mut v, ". ");
    let mo = month_string(t.month);
    crate::text::append_str_chars(&mut v, mo.as_str());
    crate::text::append_str_chars(&mut v, " ");
    push_decimal(&mut v, t.year);
    proof {
        assert(v@ =~= date_title(*t));
    }
    string_from_chars(&v)
}

/// The clock plugin's entry set for one instant: the time entry and the
/// date entry, in that order.
pub fn clock_entries(t: &ClockTime) -> (r: Vec<Entry>)
    requires
        t.wf(),
    ensures
        r.deep_view() == clock_entry_views(*t),
{
    let mut r: Vec<Entry> = Vec::new();
    r.push(
        Entry {
            id: String::from_str("time-entry"),
            title: time_title_exec(t),
            action: String::from_str(""),
            meta: String::from_str("Clock Time"),
        },
    );
    r.push(
        Entry {
            id: String::from_str("date"),
            title: date_title_exec(t),
            action: String::from_str(""),
            meta: String::from_str("Clock Date"),
        },
    );
    proof {
        assert(r.deep_view() =~= clock_entry_views(*t));
    }
    r
}

/// Relies on `chrono::Local::now` and chrono's `Datelike` / `Timelike`
/// accessors: the local wall-clock instant decomposed into calendar
/// fields, each within its documented range (`month` 1..=12, `day`
/// 1..=31, `num_days_from_monday` 0..=6, `hour` below 24, `minute` and
/// `second` below 60).
#[verifier::external_body]
pub fn local_now() -> (t: ClockTime)
    ensures
        t.wf(),
{
    let now = chrono::Local::now();
    ClockTime {
        year: now.year() as u32,
        month: now.month(),
        day: now.day(),
        weekday: now.weekday().num_days_from_monday(),
        hour: now.hour(),
        minute: now.minute(),
        second: now.second(),
    }
}

/// The clock data source: a worker whose entries are the two clock
/// entries for the given instant. The poll loop refreshes them through
/// `PluginWorker::on_timeout` with `clock_entries` of a later instant.
pub struct ClockPlugin {
    pub worker: PluginWorker,
}

impl ClockPlugin {
    /// Identity `"clock"`, priority 10, entries for the given instant.
    pub fn new(now: &ClockTime) -> (p: Self)
        requires
            now.wf(),
        ensures
            p.worker@.id == "clock"@,
            p.worker@.priority == 10,
            p.worker@.title == "󰅐 Clock"@,
            p.worker@.entries == clock_entry_views(*now),
            p.worker@.last_query == Seq::<char>::empty(),
    {
        ClockPlugin {
            worker: PluginWorker::new(
                String::from_str("clock"),
                10,
                String::from_str("󰅐 Clock"),
                clock_entries(now),
            ),
        }
    }
}

} // verus!

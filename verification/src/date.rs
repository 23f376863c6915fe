//! Calendar dates, counted in days.
//!
//! A date is the number of its day in the proleptic Gregorian calendar, with
//! January 1 of the year 1 as day 1. Comparing dates and taking the days
//! between them is integer arithmetic; turning one into text is left to
//! `chrono`.

use vstd::prelude::*;

verus! {

/// January 1, 262144 BCE.
pub const FIRST_DAY: i32 = -95_746_129;

/// December 31, 262142 CE.
pub const LAST_DAY: i32 = 95_745_399;

/// A calendar date.
#[derive(Debug, Clone, Copy, PartialEq, Eq, Structural)]
pub struct Date {
    /// Day number, with January 1 of the year 1 as day 1.
    pub day: i32,
}

impl View for Date {
    type V = int;

    open spec fn view(&self) -> int {
        self.day as int
    }
}

impl Date {
    /// Whether the calendar reaches this day.
    pub open spec fn wf(self) -> bool {
        FIRST_DAY <= self@ <= LAST_DAY
    }

    /// The date of a day number, if the calendar reaches it.
    pub fn from_day(day: i32) -> (d: Option<Date>)
        ensures
            d is Some <==> FIRST_DAY <= day <= LAST_DAY,
            d matches Some(date) ==> date.wf() && date@ == day,
    {
        if FIRST_DAY <= day && day <= LAST_DAY {
            Some(Date { day })
        } else {
            None
        }
    }

    /// The days from `earlier` to this date.
    pub fn days_since(&self, earlier: Date) -> (n: i64)
        ensures
            n == self@ - earlier@,
    {
        self.day as i64 - earlier.day as i64
    }
}

/// The text that `chrono` shows for the date with a given day number.
pub uninterp spec fn date_text(day: int) -> Seq<char>;

/// The text that `chrono` gives the date with a given day number under the
/// pattern `%Y-%m-%d`.
pub uninterp spec fn date_stamp_text(day: int) -> Seq<char>;

/// Calls `chrono::NaiveDate`'s `Display` on the date with this day number: the
/// text depends on the day alone. What it is, digit by digit, is not stated.
#[verifier::external_body]
pub(crate) fn show_date(date: Date) -> (text: String)
    requires
        date.wf(),
    ensures
        text@ == date_text(date@),
{
    chrono::NaiveDate::from_num_days_from_ce_opt(date.day).unwrap().to_string()
}

/// Calls `chrono::NaiveDate::format` with the pattern `%Y-%m-%d` on the date
/// with this day number: the text depends on the day alone. What it is, digit
/// by digit, is not stated.
#[verifier::external_body]
pub(crate) fn stamp_date(date: Date) -> (text: String)
    requires
        date.wf(),
    ensures
        text@ == date_stamp_text(date@),
{
    chrono::NaiveDate::from_num_days_from_ce_opt(date.day).unwrap().format("%Y-%m-%d").to_string()
}

/// Day numbers on the calendar make dates, and dates lie as many days apart as
/// their numbers do.
pub proof fn dates_are_day_numbers(day: i32, d: Option<Date>, a: Date, b: Date, n: i64)
    requires
        call_ensures(Date::from_day, (day,), d),
        call_ensures(Date::days_since, (&a, b), n),
    ensures
        d is Some <==> -95_746_129 <= day <= 95_745_399,
        d matches Some(date) ==> date.day == day,
        n == a.day - b.day,
{
}

} // verus!

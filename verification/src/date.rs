//! Calendar days, and the bounded sequence of consecutive days that a run
//! walks through.
//!
//! The calendar itself is chrono's: whether a day exists, which day follows
//! it, and how it is written are asked of chrono. The contracts of those
//! calls are stated here over the proleptic Gregorian rules spelled out
//! below, and everything else in this module is proved from them.

use chrono::{Datelike, NaiveDate};
use vstd::prelude::*;

use crate::text::{digit_char, lemma_four_digits, lemma_two_digits, zero_padded};

verus! {

/// The first year that has representable days.
pub const MIN_YEAR: i32 = -262_143;

/// The last year that has representable days.
pub const MAX_YEAR: i32 = 262_142;

/// Whether `year` has a 29th of February.
pub open spec fn is_leap_year(year: int) -> bool {
    year % 4 == 0 && (year % 100 != 0 || year % 400 == 0)
}

/// The number of days of the given month, for `month` in `1..=12`.
pub open spec fn days_in_month(year: int, month: int) -> int {
    if month == 2 {
        if is_leap_year(year) {
            29
        } else {
            28
        }
    } else if month == 4 || month == 6 || month == 9 || month == 11 {
        30
    } else {
        31
    }
}

/// Whether the triple names a day of the calendar within the representable
/// years.
pub open spec fn is_calendar_date(year: int, month: int, day: int) -> bool {
    &&& MIN_YEAR <= year <= MAX_YEAR
    &&& 1 <= month <= 12
    &&& 1 <= day <= days_in_month(year, month)
}

/// The year as it is written: four digits for the years 0 to 9999, otherwise
/// a sign followed by at least four digits.
pub open spec fn year_text(year: int) -> Seq<char> {
    if 0 <= year <= 9999 {
        zero_padded(year as nat, 4)
    } else if year < 0 {
        seq!['-'] + zero_padded((-year) as nat, 4)
    } else {
        seq!['+'] + zero_padded(year as nat, 4)
    }
}

/// Why a date could not be used.
#[derive(Clone, Copy, Debug, PartialEq, Eq, Structural)]
pub enum DateError {
    /// The year, month and day do not name a day of the calendar.
    InvalidDate,
}

/// A calendar day given by year, month and day of month.
///
/// Any triple can be written down; [`Date::is_valid`] says which of them are
/// days.
#[derive(Clone, Copy, Debug, PartialEq, Eq, Structural)]
pub struct Date {
    pub year: i32,
    pub month: u32,
    pub day: u32,
}

impl Date {
    /// Whether this triple is a day of the calendar.
    pub open spec fn is_valid(self) -> bool {
        is_calendar_date(self.year as int, self.month as int, self.day as int)
    }

    /// Whether this is the last representable day.
    pub open spec fn is_last(self) -> bool {
        self.year == MAX_YEAR && self.month == 12 && self.day == 31
    }

    /// The day after this one.
    pub open spec fn succ(self) -> Date
        recommends
            self.is_valid(),
            !self.is_last(),
    {
        if self.day < days_in_month(self.year as int, self.month as int) {
            Date { year: self.year, month: self.month, day: (self.day + 1) as u32 }
        } else if self.month < 12 {
            Date { year: self.year, month: (self.month + 1) as u32, day: 1 }
        } else {
            Date { year: (self.year + 1) as i32, month: 1, day: 1 }
        }
    }

    /// The day as it is written in an address: year, month and day of month
    /// joined by hyphens, month and day with two digits each.
    pub open spec fn iso_text(self) -> Seq<char> {
        year_text(self.year as int) + seq!['-'] + zero_padded(self.month as nat, 2) + seq!['-']
            + zero_padded(self.day as nat, 2)
    }

    /// Makes a date of a triple that names a day, and refuses any other.
    pub fn new(year: i32, month: u32, day: u32) -> (made: Result<Date, DateError>)
        ensures
            is_calendar_date(year as int, month as int, day as int) ==> made is Ok
                && made->Ok_0.year == year && made->Ok_0.month == month && made->Ok_0.day == day,
            !is_calendar_date(year as int, month as int, day as int) ==> made is Err
                && made->Err_0 == DateError::InvalidDate,
    {
        if day_exists(year, month, day) {
            Ok(Date { year, month, day })
        } else {
            Err(DateError::InvalidDate)
        }
    }
}

/// Asks `chrono::NaiveDate::from_ymd_opt` whether a triple names a day.
///
/// Trusted, not proved: chrono makes a date of a triple exactly where the
/// year lies in [`MIN_YEAR`] to [`MAX_YEAR`], the month in 1 to 12, and the
/// day in 1 to the length that the proleptic Gregorian calendar gives that
/// month in that year.
#[verifier::external_body]
fn day_exists(year: i32, month: u32, day: u32) -> (exists: bool)
    ensures
        exists == is_calendar_date(year as int, month as int, day as int),
{
    NaiveDate::from_ymd_opt(year, month, day).is_some()
}

/// Asks `chrono::NaiveDate::succ_opt` for the day after `date`. The day goes
/// to chrono through `from_ymd_opt` and comes back through the year, month
/// and day of `chrono::Datelike`.
///
/// Trusted, not proved: for the last representable day chrono has no next
/// day; for every other day of the calendar its next day is the one that
/// [`Date::succ`] describes.
#[verifier::external_body]
fn day_after(date: Date) -> (following: Option<Date>)
    requires
        date.is_valid(),
    ensures
        date.is_last() ==> following is None,
        !date.is_last() ==> following == Some(date.succ()),
{
    let day = NaiveDate::from_ymd_opt(date.year, date.month, date.day)?;
    let next = day.succ_opt()?;
    Some(Date { year: next.year(), month: next.month(), day: next.day() })
}

/// Asks `chrono::NaiveDate::format` to write `date` with the pattern
/// `%Y-%m-%d`.
///
/// Trusted, not proved: chrono writes the year padded with zeros to four
/// digits, with a sign before it where the year lies outside 0 to 9999, then
/// a hyphen, the month padded to two digits, a hyphen, and the day padded to
/// two digits, as [`Date::iso_text`] describes.
#[verifier::external_body]
pub(crate) fn iso_string(date: Date) -> (text: String)
    requires
        date.is_valid(),
    ensures
        text@ == date.iso_text(),
{
    match NaiveDate::from_ymd_opt(date.year, date.month, date.day) {
        Some(day) => day.format("%Y-%m-%d").to_string(),
        None => String::new(),
    }
}

/// The days that a generator of at most `count` days hands out when it starts
/// at `start`: `start` and the days after it, one by one. The last
/// representable day is never handed out, so the sequence is shorter than
/// `count` where the calendar ends first.
pub open spec fn days_from(start: Date, count: nat) -> Seq<Date>
    decreases count,
{
    if count == 0 || start.is_last() {
        Seq::empty()
    } else {
        seq![start] + days_from(start.succ(), (count - 1) as nat)
    }
}

/// A lazy, finite sequence of consecutive days.
///
/// It is a plain value: a copy of it, or a second one made from the same
/// start, hands out the same days again.
#[derive(Clone, Copy, Debug)]
pub struct DateRange {
    next: Date,
    remaining: usize,
}

impl View for DateRange {
    type V = Seq<Date>;

    /// The days still to be handed out, in order.
    closed spec fn view(&self) -> Seq<Date> {
        days_from(self.next, self.remaining as nat)
    }
}

impl DateRange {
    #[verifier::type_invariant]
    spec fn well_formed(self) -> bool {
        self.next.is_valid()
    }

    /// A generator of at most `max_count` days, the first of them `start`.
    /// A `start` that is no day of the calendar is refused.
    pub fn new(start: Date, max_count: usize) -> (made: Result<DateRange, DateError>)
        ensures
            start.is_valid() ==> made is Ok && made->Ok_0@ == days_from(start, max_count as nat),
            !start.is_valid() ==> made is Err && made->Err_0 == DateError::InvalidDate,
    {
        if day_exists(start.year, start.month, start.day) {
            Ok(DateRange { next: start, remaining: max_count })
        } else {
            Err(DateError::InvalidDate)
        }
    }

    /// Hands out the next day, or nothing once the sequence has run out.
    pub fn next(&mut self) -> (pulled: Option<Date>)
        ensures
            old(self)@.len() == 0 ==> pulled is None && final(self)@ == old(self)@,
            old(self)@.len() > 0 ==> pulled == Some(old(self)@[0]) && final(self)@ == old(
                self,
            )@.drop_first(),
            pulled is Some ==> pulled->Some_0.is_valid(),
    {
        proof {
            use_type_invariant(&*self);
        }
        if self.remaining == 0 {
            return None;
        }
        match day_after(self.next) {
            None => None,
            Some(following) => {
                let current = self.next;
                self.remaining = self.remaining - 1;
                self.next = following;
                assert(old(self)@.drop_first() =~= self@);
                Some(current)
            },
        }
    }
}

/// In the years 0 to 9999 a day is written with ten characters: the four
/// digits of the year, the two of the month and the two of the day, with
/// hyphens between them.
pub proof fn lemma_iso_text_of_four_digit_year(date: Date)
    requires
        date.is_valid(),
        0 <= date.year <= 9999,
    ensures
        date.iso_text() == seq![
            digit_char((date.year / 1000) as nat),
            digit_char((date.year / 100 % 10) as nat),
            digit_char((date.year / 10 % 10) as nat),
            digit_char((date.year % 10) as nat),
            '-',
            digit_char((date.month / 10) as nat),
            digit_char((date.month % 10) as nat),
            '-',
            digit_char((date.day / 10) as nat),
            digit_char((date.day % 10) as nat),
        ],
{
    lemma_four_digits(date.year as nat);
    lemma_two_digits(date.month as nat);
    lemma_two_digits(date.day as nat);
    assert(date.iso_text() =~= seq![
        digit_char((date.year / 1000) as nat),
        digit_char((date.year / 100 % 10) as nat),
        digit_char((date.year / 10 % 10) as nat),
        digit_char((date.year % 10) as nat),
        '-',
        digit_char((date.month / 10) as nat),
        digit_char((date.month % 10) as nat),
        '-',
        digit_char((date.day / 10) as nat),
        digit_char((date.day % 10) as nat),
    ]);
}

/// The last representable day.
pub open spec fn last_day() -> Date {
    Date { year: MAX_YEAR, month: 12, day: 31 }
}

/// The number of days from the first of January of the year 1 to the first
/// of January of `year`; negative for earlier years.
pub open spec fn days_before_year(year: int) -> int {
    let past = year - 1;
    365 * past + past / 4 - past / 100 + past / 400
}

/// The number of days of `year` that lie before the first of `month`.
pub open spec fn days_before_month(year: int, month: int) -> int
    decreases month,
{
    if month <= 1 {
        0
    } else {
        days_before_month(year, month - 1) + days_in_month(year, month - 1)
    }
}

/// The place of a day on the time line, counted in days: the first of
/// January of the year 1 has the number 1, and each day has a number one
/// higher than the day before it (see [`lemma_succ_is_one_day_later`]).
pub open spec fn day_number(date: Date) -> int {
    days_before_year(date.year as int) + days_before_month(date.year as int, date.month as int)
        + date.day
}

/// A year has 365 days, and one more if it is a leap year.
pub proof fn lemma_year_length(year: int)
    ensures
        days_before_year(year + 1) == days_before_year(year) + 365 + (if is_leap_year(year) {
            1int
        } else {
            0int
        }),
        days_before_month(year, 13) == 365 + (if is_leap_year(year) {
            1int
        } else {
            0int
        }),
{
    reveal_with_fuel(days_before_month, 14);
}

/// Later years begin later.
pub proof fn lemma_days_before_year_monotone(earlier: int, later: int)
    requires
        earlier <= later,
    ensures
        days_before_year(earlier) + 365 * (later - earlier) <= days_before_year(later),
    decreases later - earlier,
{
    if earlier < later {
        lemma_days_before_year_monotone(earlier, later - 1);
        lemma_year_length(later - 1);
    }
}

/// The day after a day of the calendar is a day of the calendar, and it is
/// exactly one day later.
pub proof fn lemma_succ_is_one_day_later(date: Date)
    requires
        date.is_valid(),
        !date.is_last(),
    ensures
        date.succ().is_valid(),
        day_number(date.succ()) == day_number(date) + 1,
{
    reveal_with_fuel(days_before_month, 14);
    lemma_year_length(date.year as int);
}

/// Every day of the calendar but the last lies before the last.
pub proof fn lemma_before_last_day(date: Date)
    requires
        date.is_valid(),
        !date.is_last(),
    ensures
        day_number(date) < day_number(last_day()),
{
    reveal_with_fuel(days_before_month, 14);
    if date.year < MAX_YEAR {
        lemma_year_length(date.year as int);
        lemma_days_before_year_monotone(date.year + 1, MAX_YEAR as int);
    }
}

/// What a generator hands out: consecutive days from its start.
///
/// A generator of at most `count` days that starts at the day `start` hands
/// out `count` days, or as many as there are before the last representable
/// day if those are fewer. The first is `start`, each of the others is the
/// day after the one before it, and the day at place `i` is `i` days later
/// than `start`.
pub proof fn lemma_days_from_consecutive(start: Date, count: nat)
    requires
        start.is_valid(),
    ensures
        days_from(start, count).len() == if count <= day_number(last_day()) - day_number(start) {
            count as int
        } else {
            day_number(last_day()) - day_number(start)
        },
        days_from(start, count).len() > 0 ==> days_from(start, count)[0] == start,
        forall|i: int|
            0 <= i < days_from(start, count).len() ==> {
                &&& (#[trigger] days_from(start, count)[i]).is_valid()
                &&& !days_from(start, count)[i].is_last()
                &&& day_number(days_from(start, count)[i]) == day_number(start) + i
            },
        forall|i: int|
            1 <= i < days_from(start, count).len() ==> #[trigger] days_from(start, count)[i]
                == days_from(start, count)[i - 1].succ(),
    decreases count,
{
    let days = days_from(start, count);
    if !start.is_last() {
        lemma_before_last_day(start);
    }
    if count > 0 && !start.is_last() {
        let rest = days_from(start.succ(), (count - 1) as nat);
        lemma_succ_is_one_day_later(start);
        lemma_days_from_consecutive(start.succ(), (count - 1) as nat);
        assert(days =~= seq![start] + rest);
        assert forall|i: int| 0 <= i < days.len() implies {
            &&& (#[trigger] days[i]).is_valid()
            &&& !days[i].is_last()
            &&& day_number(days[i]) == day_number(start) + i
        } by {
            if i > 0 {
                assert(days[i] == rest[i - 1]);
            }
        }
        assert forall|i: int| 1 <= i < days.len() implies #[trigger] days[i] == days[i
            - 1].succ() by {
            assert(days[i] == rest[i - 1]);
            if i > 1 {
                assert(days[i - 1] == rest[i - 2]);
            }
        }
    }
}

/// A generator hands out no day twice.
pub proof fn lemma_days_from_distinct(start: Date, count: nat, i: int, j: int)
    requires
        start.is_valid(),
        0 <= i < days_from(start, count).len(),
        0 <= j < days_from(start, count).len(),
        i != j,
    ensures
        days_from(start, count)[i] != days_from(start, count)[j],
{
    lemma_days_from_consecutive(start, count);
}

} // verus!

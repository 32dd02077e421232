//! Calendar dates of the proleptic Gregorian calendar, held as the day number
//! counted from the common era (0001-01-01 is day 1). Calendar structure
//! (years, ordinals, months, text) is computed by `chrono`.
use vstd::prelude::*;
use chrono::{Datelike, Days, Months, NaiveDate};

verus! {

/// Day number of the earliest date `chrono` represents (year -262143, January 1).
pub const MIN_DAY_NUMBER: i32 = -95746129;

/// Day number of the latest date `chrono` represents (year 262142, December 31).
pub const MAX_DAY_NUMBER: i32 = 95745399;

pub open spec fn day_number_in_range(n: int) -> bool {
    MIN_DAY_NUMBER <= n <= MAX_DAY_NUMBER
}

/// Calendar year of a day number.
pub uninterp spec fn calendar_year(day_number: int) -> int;

/// Day of the year (1..=366) of a day number.
pub uninterp spec fn calendar_ordinal(day_number: int) -> int;

/// The day number `months` calendar months later (clamping to the month's last
/// day), or `None` outside the representable range.
pub uninterp spec fn months_later(day_number: int, months: int) -> Option<int>;

/// The `%Y-%m-%d` text of a day number.
pub uninterp spec fn date_text(day_number: int) -> Seq<char>;

/// The text of a day number under the explicit `%Y-%m-%d` format.
pub uninterp spec fn ymd_text(day_number: int) -> Seq<char>;

/// The day number a text denotes under `NaiveDate`'s `FromStr` (`%Y-%m-%d`), if any.
pub uninterp spec fn parsed_date(text: Seq<char>) -> Option<int>;

/// The day number a text denotes under the `%Y-%m-%d` format, if any.
pub uninterp spec fn parsed_ymd(text: Seq<char>) -> Option<int>;

/// The day number of a year, month and day, if that date exists.
pub uninterp spec fn ymd_day_number(year: int, month: int, day: int) -> Option<int>;

/// Monday is the weekday of 0001-01-01, and weekdays repeat every seven days.
pub open spec fn is_monday(day_number: int) -> bool {
    (day_number - 1) % 7 == 0
}

/// A calendar date.
#[derive(Debug, Clone, Copy, PartialEq, Eq, Structural, PartialOrd, Ord, Hash)]
pub struct Date {
    days: i32,
}

impl Date {
    #[verifier::type_invariant]
    spec fn in_range(self) -> bool {
        day_number_in_range(self.days as int)
    }

    /// Days since the common era (0001-01-01 is day 1).
    pub closed spec fn day_number(self) -> int {
        self.days as int
    }

    /// The date with a given day number (meaningful within the representable range).
    pub closed spec fn from_day_number_spec(n: int) -> Date {
        Date { days: n as i32 }
    }

    /// A date is the date of its own day number.
    pub proof fn lemma_date_of_day_number(d: Date)
        ensures
            Date::from_day_number_spec(d.day_number()) == d,
    {
    }

    /// A day number in range names exactly one date.
    pub proof fn lemma_day_number_identifies(n: int, d: Date)
        requires
            day_number_in_range(n),
        ensures
            Date::from_day_number_spec(n).day_number() == n,
            d.day_number() == n ==> d == Date::from_day_number_spec(n),
    {
    }

    /// The day number, which always lies in the representable range.
    pub fn to_day_number(self) -> (r: i32)
        ensures
            r == self.day_number(),
            day_number_in_range(r as int),
    {
        proof {
            use_type_invariant(&self);
        }
        self.days
    }

    /// The date with this day number, if it is representable.
    pub fn from_day_number(n: i32) -> (r: Option<Date>)
        ensures
            r is Some <==> day_number_in_range(n as int),
            r matches Some(d) ==> d.day_number() == n,
    {
        if MIN_DAY_NUMBER <= n && n <= MAX_DAY_NUMBER {
            Some(Date { days: n })
        } else {
            None
        }
    }

    /// The date of a year, month and day, if it exists.
    pub fn from_ymd(year: i32, month: u32, day: u32) -> (r: Option<Date>)
        ensures
            r is Some <==> ymd_day_number(year as int, month as int, day as int) is Some,
            r matches Some(d) ==> ymd_day_number(year as int, month as int, day as int) == Some(
                d.day_number(),
            ),
    {
        match ymd_to_day_number(year, month, day) {
            Some(n) => Date::from_day_number(n),
            None => None,
        }
    }

    /// Parse `%Y-%m-%d` text.
    pub fn parse(text: &str) -> (r: Option<Date>)
        ensures
            r is Some <==> parsed_date(text@) is Some,
            r matches Some(d) ==> parsed_date(text@) == Some(d.day_number()),
    {
        match parse_day_number(text) {
            Some(n) => Date::from_day_number(n),
            None => None,
        }
    }

    /// Parse text with the explicit `%Y-%m-%d` format.
    pub fn parse_ymd(text: &str) -> (r: Option<Date>)
        ensures
            r is Some <==> parsed_ymd(text@) is Some,
            r matches Some(d) ==> parsed_ymd(text@) == Some(d.day_number()),
    {
        match parse_ymd_day_number(text) {
            Some(n) => Date::from_day_number(n),
            None => None,
        }
    }

    /// Whole days from `earlier` to `self` (negative when `self` is earlier).
    pub fn days_since(self, earlier: Date) -> (r: i64)
        ensures
            r == self.day_number() - earlier.day_number(),
            day_number_in_range(self.day_number()),
            day_number_in_range(earlier.day_number()),
    {
        proof {
            use_type_invariant(&self);
            use_type_invariant(&earlier);
        }
        days_between(self.days, earlier.days)
    }

    pub fn is_before(self, other: Date) -> (r: bool)
        ensures
            r == (self.day_number() < other.day_number()),
    {
        self.days < other.days
    }

    /// The date `days` days later, if representable.
    pub fn checked_add_days(self, days: u64) -> (r: Option<Date>)
        ensures
            r is Some <==> (days <= i32::MAX && day_number_in_range(self.day_number() + days)),
            r matches Some(d) ==> d.day_number() == self.day_number() + days,
    {
        proof {
            use_type_invariant(&self);
        }
        match add_days_to_day_number(self.days, days) {
            Some(n) => Date::from_day_number(n),
            None => None,
        }
    }

    /// The date `days` days earlier, if representable.
    pub fn checked_sub_days(self, days: u64) -> (r: Option<Date>)
        ensures
            r is Some <==> (days <= i32::MAX && day_number_in_range(self.day_number() - days)),
            r matches Some(d) ==> d.day_number() == self.day_number() - days,
    {
        proof {
            use_type_invariant(&self);
        }
        match sub_days_from_day_number(self.days, days) {
            Some(n) => Date::from_day_number(n),
            None => None,
        }
    }

    /// The date `months` calendar months later, if representable.
    pub fn checked_add_months(self, months: u32) -> (r: Option<Date>)
        ensures
            r is Some <==> months_later(self.day_number(), months as int) is Some,
            r matches Some(d) ==> months_later(self.day_number(), months as int) == Some(
                d.day_number(),
            ) && (months > 0 ==> d.day_number() > self.day_number()),
    {
        proof {
            use_type_invariant(&self);
        }
        match add_months_to_day_number(self.days, months) {
            Some(n) => Date::from_day_number(n),
            None => None,
        }
    }

    /// Calendar year.
    pub fn year(self) -> (r: i32)
        ensures
            r == calendar_year(self.day_number()),
            -262143 <= r <= 262142,
    {
        proof {
            use_type_invariant(&self);
        }
        year_of_day_number(self.days)
    }

    /// Day of the year, 1..=366.
    pub fn ordinal(self) -> (r: u32)
        ensures
            r == calendar_ordinal(self.day_number()),
            1 <= r <= 366,
    {
        proof {
            use_type_invariant(&self);
        }
        ordinal_of_day_number(self.days)
    }

    /// Whether the date is a Monday.
    pub fn is_monday(self) -> (r: bool)
        ensures
            r == is_monday(self.day_number()),
    {
        proof {
            use_type_invariant(&self);
        }
        monday_day_number(self.days)
    }

    /// The date formatted with the explicit `%Y-%m-%d` pattern.
    pub fn format_ymd(self) -> (r: String)
        ensures
            r@ == ymd_text(self.day_number()),
    {
        proof {
            use_type_invariant(&self);
        }
        ymd_text_of_day_number(self.days)
    }

    /// The `%Y-%m-%d` text of the date.
    pub fn to_text(self) -> (r: String)
        ensures
            r@ == date_text(self.day_number()),
            parsed_date(r@) == Some(self.day_number()),
    {
        proof {
            use_type_invariant(&self);
        }
        text_of_day_number(self.days)
    }
}

/// `NaiveDate::format("%Y-%m-%d")` rendered to a string.
#[verifier::external_body]
fn ymd_text_of_day_number(n: i32) -> (r: String)
    requires
        day_number_in_range(n as int),
    ensures
        r@ == ymd_text(n as int),
{
    NaiveDate::from_num_days_from_ce_opt(n).expect("date in range").format("%Y-%m-%d").to_string()
}

/// `NaiveDate - NaiveDate` in whole days: the difference of the day numbers.
#[verifier::external_body]
fn days_between(later: i32, earlier: i32) -> (r: i64)
    requires
        day_number_in_range(later as int),
        day_number_in_range(earlier as int),
    ensures
        r == later - earlier,
{
    let a = NaiveDate::from_num_days_from_ce_opt(later).expect("date in range");
    let b = NaiveDate::from_num_days_from_ce_opt(earlier).expect("date in range");
    (a - b).num_days()
}

/// `NaiveDate::from_ymd_opt`, as a day number.
#[verifier::external_body]
fn ymd_to_day_number(year: i32, month: u32, day: u32) -> (r: Option<i32>)
    ensures
        r is Some <==> ymd_day_number(year as int, month as int, day as int) is Some,
        r matches Some(n) ==> ymd_day_number(year as int, month as int, day as int) == Some(
            n as int,
        ) && day_number_in_range(n as int),
{
    NaiveDate::from_ymd_opt(year, month, day).map(|d| d.num_days_from_ce())
}

/// `str::parse::<NaiveDate>`, as a day number.
#[verifier::external_body]
fn parse_day_number(text: &str) -> (r: Option<i32>)
    ensures
        r is Some <==> parsed_date(text@) is Some,
        r matches Some(n) ==> parsed_date(text@) == Some(n as int) && day_number_in_range(n as int),
{
    text.parse::<NaiveDate>().ok().map(|d| d.num_days_from_ce())
}

/// `NaiveDate::parse_from_str(text, "%Y-%m-%d")`, as a day number.
#[verifier::external_body]
fn parse_ymd_day_number(text: &str) -> (r: Option<i32>)
    ensures
        r is Some <==> parsed_ymd(text@) is Some,
        r matches Some(n) ==> parsed_ymd(text@) == Some(n as int) && day_number_in_range(n as int),
{
    NaiveDate::parse_from_str(text, "%Y-%m-%d").ok().map(|d| d.num_days_from_ce())
}

/// `NaiveDate::checked_add_days`: `None` when the count exceeds `i32::MAX` or the
/// result leaves the representable range.
#[verifier::external_body]
fn add_days_to_day_number(n: i32, days: u64) -> (r: Option<i32>)
    requires
        day_number_in_range(n as int),
    ensures
        r is Some <==> (days <= i32::MAX && day_number_in_range(n + days)),
        r matches Some(m) ==> m == n + days,
{
    let date = NaiveDate::from_num_days_from_ce_opt(n).expect("date in range");
    date.checked_add_days(Days::new(days)).map(|d| d.num_days_from_ce())
}

/// `NaiveDate::checked_sub_days`: `None` when the count exceeds `i32::MAX` or the
/// result leaves the representable range.
#[verifier::external_body]
fn sub_days_from_day_number(n: i32, days: u64) -> (r: Option<i32>)
    requires
        day_number_in_range(n as int),
    ensures
        r is Some <==> (days <= i32::MAX && day_number_in_range(n - days)),
        r matches Some(m) ==> m == n - days,
{
    let date = NaiveDate::from_num_days_from_ce_opt(n).expect("date in range");
    date.checked_sub_days(Days::new(days)).map(|d| d.num_days_from_ce())
}

/// `NaiveDate::checked_add_months`.
#[verifier::external_body]
fn add_months_to_day_number(n: i32, months: u32) -> (r: Option<i32>)
    requires
        day_number_in_range(n as int),
    ensures
        r is Some <==> months_later(n as int, months as int) is Some,
        r matches Some(m) ==> months_later(n as int, months as int) == Some(m as int)
            && day_number_in_range(m as int) && (months > 0 ==> m > n),
{
    let date = NaiveDate::from_num_days_from_ce_opt(n).expect("date in range");
    date.checked_add_months(Months::new(months)).map(|d| d.num_days_from_ce())
}

/// `Datelike::year`.
#[verifier::external_body]
fn year_of_day_number(n: i32) -> (r: i32)
    requires
        day_number_in_range(n as int),
    ensures
        r == calendar_year(n as int),
        -262143 <= r <= 262142,
{
    NaiveDate::from_num_days_from_ce_opt(n).expect("date in range").year()
}

/// `Datelike::ordinal`: the day of the year, 1..=366.
#[verifier::external_body]
fn ordinal_of_day_number(n: i32) -> (r: u32)
    requires
        day_number_in_range(n as int),
    ensures
        r == calendar_ordinal(n as int),
        1 <= r <= 366,
{
    NaiveDate::from_num_days_from_ce_opt(n).expect("date in range").ordinal()
}

/// `Datelike::weekday` compared with Monday (0001-01-01 was a Monday).
#[verifier::external_body]
fn monday_day_number(n: i32) -> (r: bool)
    requires
        day_number_in_range(n as int),
    ensures
        r == is_monday(n as int),
{
    NaiveDate::from_num_days_from_ce_opt(n).expect("date in range").weekday() == chrono::Weekday::Mon
}

/// `NaiveDate`'s `Display` (`%Y-%m-%d`); its `FromStr` reads the same format back.
#[verifier::external_body]
fn text_of_day_number(n: i32) -> (r: String)
    requires
        day_number_in_range(n as int),
    ensures
        r@ == date_text(n as int),
        parsed_date(r@) == Some(n as int),
{
    NaiveDate::from_num_days_from_ce_opt(n).expect("date in range").to_string()
}

} // verus!

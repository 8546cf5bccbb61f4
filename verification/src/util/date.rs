//! Calendar dates, held as Julian day numbers, with calendar arithmetic and
//! formatting done by the `time` crate.

use vstd::prelude::*;
use crate::util::text::{int_display, int_to_string, starts_with, starts_with_spec, to_lowercase, trim, trim_spec, unicode_lowercase};

verus! {

/// The Julian day of the earliest date `time` supports (-9999-01-01).
pub const MIN_JULIAN_DAY: i32 = -1930999i32;

/// The Julian day of the latest date `time` supports (9999-12-31).
pub const MAX_JULIAN_DAY: i32 = 5373484i32;

/// A date in the proleptic Gregorian calendar, as its Julian day number.
/// Dates order as their day numbers do.
#[derive(Clone, Copy, PartialEq, Eq, Debug, Hash, PartialOrd, Ord)]
pub struct Date {
    jd: i32,
}

impl Date {
    #[verifier::type_invariant]
    spec fn in_range(self) -> bool {
        MIN_JULIAN_DAY <= self.jd <= MAX_JULIAN_DAY
    }

    /// The Julian day number.
    pub closed spec fn day_number(self) -> int {
        self.jd as int
    }

    /// The date with the given Julian day number, where it is in range.
    pub fn from_julian_day(jd: i32) -> (r: Option<Date>)
        ensures
            r is Some <==> MIN_JULIAN_DAY <= jd <= MAX_JULIAN_DAY,
            r is Some ==> r->0.day_number() == jd,
    {
        if MIN_JULIAN_DAY <= jd && jd <= MAX_JULIAN_DAY {
            Some(Date { jd })
        } else {
            None
        }
    }

    pub fn to_julian_day(&self) -> (r: i32)
        ensures
            r == self.day_number(),
    {
        self.jd
    }

    /// The earliest supported date.
    pub fn min_date() -> (r: Date)
        ensures
            r.day_number() == MIN_JULIAN_DAY,
    {
        Date { jd: MIN_JULIAN_DAY }
    }

    /// Strictly earlier than `other`.
    pub fn before(&self, other: &Date) -> (r: bool)
        ensures
            r == (self.day_number() < other.day_number()),
    {
        self.jd < other.jd
    }

    /// The same day as `other`.
    pub fn same_day(&self, other: &Date) -> (r: bool)
        ensures
            r == (self.day_number() == other.day_number()),
    {
        self.jd == other.jd
    }

    /// The date `days` days later (earlier, for a negative count), held at the
    /// supported range.
    pub fn saturating_add_days(&self, days: i64) -> (r: Date)
        requires
            -1000000 <= days <= 1000000,
        ensures
            r.day_number() == clamp_day(self.day_number() + days),
    {
        date_saturating_add_days_call(self, days)
    }

    /// The calendar year.
    pub fn year(&self) -> (r: i32)
        ensures
            r == date_year(self.day_number()),
    {
        date_year_call(self)
    }

    /// The date as `YYYY-MM-DD`.
    pub fn to_string(&self) -> (r: String)
        ensures
            r@ == date_display(self.day_number()),
    {
        date_to_string_call(self)
    }

    /// The date of the given year, month (1 to 12) and day, where it exists.
    pub fn from_calendar_date(year: i32, month: u8, day: u8) -> (r: Option<Date>)
        ensures
            r == calendar_date(year as int, month as int, day as int),
    {
        date_from_calendar_call(year, month, day)
    }
}

/// A day number held at the range `time` supports.
pub open spec fn clamp_day(jd: int) -> int {
    if jd < MIN_JULIAN_DAY {
        MIN_JULIAN_DAY as int
    } else if jd > MAX_JULIAN_DAY {
        MAX_JULIAN_DAY as int
    } else {
        jd
    }
}

/// `time::Date::saturating_add` by whole days: the day number plus the count,
/// held at `Date::MIN` and `Date::MAX`.
#[verifier::external_body]
fn date_saturating_add_days_call(d: &Date, days: i64) -> (r: Date)
    requires
        -1000000 <= days <= 1000000,
    ensures
        r.day_number() == clamp_day(d.day_number() + days),
{
    let t = time::Date::from_julian_day(d.jd).unwrap();
    Date { jd: t.saturating_add(time::Duration::days(days)).to_julian_day() }
}

/// The calendar year of a day number (`time::Date::year`).
pub uninterp spec fn date_year(jd: int) -> i32;

/// `time::Date::year`.
#[verifier::external_body]
fn date_year_call(d: &Date) -> (r: i32)
    ensures
        r == date_year(d.day_number()),
{
    time::Date::from_julian_day(d.jd).unwrap().year()
}

/// How `time` displays the date of a day number (`YYYY-MM-DD`).
pub uninterp spec fn date_display(jd: int) -> Seq<char>;

/// `time::Date`'s `Display`.
#[verifier::external_body]
fn date_to_string_call(d: &Date) -> (r: String)
    ensures
        r@ == date_display(d.day_number()),
{
    time::Date::from_julian_day(d.jd).unwrap().to_string()
}

/// The date `time::Date::from_calendar_date` gives for a year, month number and
/// day, if it is valid.
pub uninterp spec fn calendar_date(year: int, month: int, day: int) -> Option<Date>;

/// `time::Date::from_calendar_date`, with the month given by its number.
#[verifier::external_body]
fn date_from_calendar_call(year: i32, month: u8, day: u8) -> (r: Option<Date>)
    ensures
        r == calendar_date(year as int, month as int, day as int),
{
    let m = time::Month::try_from(month).ok()?;
    let t = time::Date::from_calendar_date(year, m, day).ok()?;
    Some(Date { jd: t.to_julian_day() })
}

/// What `time` parses a text as in the `[year]-[month]-[day]` format, if it
/// parses.
pub uninterp spec fn standard_date_parse(s: Seq<char>) -> Option<Date>;

/// The message of `time`'s parse error for a text in the standard format.
pub uninterp spec fn standard_date_parse_error(s: Seq<char>) -> Seq<char>;

/// `time::Date::parse` with the `[year]-[month]-[day]` format description.
#[verifier::external_body]
fn date_parse_standard_call(s: &str, format: &str) -> (r: Result<Date, String>)
    requires
        format@ == seq!['[', 'y', 'e', 'a', 'r', ']', '-', '[', 'm', 'o', 'n', 't', 'h', ']', '-', '[', 'd', 'a', 'y', ']'],
    ensures
        r is Ok <==> standard_date_parse(s@) is Some,
        r is Ok ==> standard_date_parse(s@) == Some(r->Ok_0),
        r is Err ==> r->Err_0@ == standard_date_parse_error(s@),
{
    let f = time::format_description::parse(format).unwrap();
    match time::Date::parse(s, &f) {
        Ok(t) => Ok(Date { jd: t.to_julian_day() }),
        Err(e) => Err(e.to_string()),
    }
}

/// The standard date format description, `[year]-[month]-[day]`.
pub fn standard_date_format() -> (r: &'static str)
    ensures
        r@ == seq!['[', 'y', 'e', 'a', 'r', ']', '-', '[', 'm', 'o', 'n', 't', 'h', ']', '-', '[', 'd', 'a', 'y', ']'],
{
    proof {
        reveal_strlit("[year]-[month]-[day]");
    }
    "[year]-[month]-[day]"
}

/// Parses a `YYYY-MM-DD` date.
pub fn parse_standard_date(date_str: &str) -> (r: Result<Date, String>)
    ensures
        r is Ok <==> standard_date_parse(date_str@) is Some,
        r is Ok ==> standard_date_parse(date_str@) == Some(r->Ok_0),
        r is Err ==> r->Err_0@ == standard_date_parse_error(date_str@),
{
    date_parse_standard_call(date_str, standard_date_format())
}

/// A date format description (in `time`'s version 2 syntax) that parsed.
#[derive(Debug)]
pub struct DynDateFormat {
    description: String,
}

impl DynDateFormat {
    /// A format description always parses.
    #[verifier::type_invariant]
    spec fn parses(self) -> bool {
        date_format_parses(self.description@)
    }

    pub closed spec fn view(&self) -> Seq<char> {
        self.description@
    }

    pub fn description(&self) -> (r: &str)
        ensures
            r@ == self@,
            date_format_parses(self@),
    {
        proof {
            use_type_invariant(self);
        }
        self.description.as_str()
    }
}

/// Whether `time` accepts a text as a version 2 format description.
pub uninterp spec fn date_format_parses(fmt: Seq<char>) -> bool;

/// The message of `time`'s error for a format description that does not parse.
pub uninterp spec fn date_format_error(fmt: Seq<char>) -> Seq<char>;

/// `time::format_description::parse_owned::<2>`, with its error displayed.
#[verifier::external_body]
fn date_format_check_call(fmt: &str) -> (r: Result<(), String>)
    ensures
        r is Ok <==> date_format_parses(fmt@),
        r is Err ==> r->Err_0@ == date_format_error(fmt@),
{
    match time::format_description::parse_owned::<2>(fmt) {
        Ok(_) => Ok(()),
        Err(e) => Err(format!("{}", e)),
    }
}

/// Checks a version 2 date format description.
pub fn parse_dyn_date_format(fmt: &str) -> (r: Result<DynDateFormat, String>)
    ensures
        r is Ok <==> date_format_parses(fmt@),
        r is Ok ==> r->Ok_0@ == fmt@,
        r is Err ==> r->Err_0@ == date_format_error(fmt@),
{
    match date_format_check_call(fmt) {
        Ok(()) => Ok(DynDateFormat { description: fmt.to_owned() }),
        Err(e) => Err(e),
    }
}

/// What `time` parses a text as with a given (valid) format description.
pub uninterp spec fn date_parse_with_format(s: Seq<char>, fmt: Seq<char>) -> Option<Date>;

/// The message of `time`'s parse error for a text and format description.
pub uninterp spec fn date_parse_with_format_error(s: Seq<char>, fmt: Seq<char>) -> Seq<char>;

/// `time::Date::parse` with a format description that parsed.
#[verifier::external_body]
fn date_parse_with_format_call(s: &str, fmt: &str) -> (r: Result<Date, String>)
    requires
        date_format_parses(fmt@),
    ensures
        r is Ok <==> date_parse_with_format(s@, fmt@) is Some,
        r is Ok ==> date_parse_with_format(s@, fmt@) == Some(r->Ok_0),
        r is Err ==> r->Err_0@ == date_parse_with_format_error(s@, fmt@),
{
    let f = time::format_description::parse_owned::<2>(fmt).unwrap();
    match time::Date::parse(s, &f) {
        Ok(t) => Ok(Date { jd: t.to_julian_day() }),
        Err(e) => Err(e.to_string()),
    }
}

/// Parses a date with the given format, or the standard one where none is
/// given.
pub fn parse_date(date_str: &str, fmt: &Option<DynDateFormat>) -> (r: Result<Date, String>)
    ensures
        fmt is None ==> (r is Ok <==> standard_date_parse(date_str@) is Some),
        fmt is None && r is Ok ==> standard_date_parse(date_str@) == Some(r->Ok_0),
        fmt is None && r is Err ==> r->Err_0@ == standard_date_parse_error(date_str@),
        fmt is Some ==> (r is Ok <==> date_parse_with_format(date_str@, fmt->0@) is Some),
        fmt is Some && r is Ok ==> date_parse_with_format(date_str@, fmt->0@) == Some(
            r->Ok_0,
        ),
        fmt is Some && r is Err ==> r->Err_0@ == date_parse_with_format_error(
            date_str@,
            fmt->0@,
        ),
{
    match fmt {
        Some(f) => date_parse_with_format_call(date_str, f.description()),
        None => parse_standard_date(date_str),
    }
}

/// Today's date in the local time zone: `chrono::offset::Local::now`, its
/// calendar date converted to a `time` date. Nothing is claimed of it: it
/// comes from the clock and the time zone. The conversion panics for a date
/// that `time` cannot hold (after the year 9999).
#[verifier::external_body]
pub fn today_local() -> (r: Date) {
    let d = chrono::offset::Local::now().date_naive();
    let t = time::Date::from_calendar_date(
        chrono::Datelike::year(&d),
        time::Month::December.nth_next(chrono::Datelike::month(&d) as u8),
        chrono::Datelike::day(&d) as u8,
    ).unwrap();
    Date { jd: t.to_julian_day() }
}

/// The month number (1 to 12) of a day number (`time::Date::month`).
pub uninterp spec fn date_month(jd: int) -> u8;

/// The day of the month of a day number (`time::Date::day`).
pub uninterp spec fn date_day(jd: int) -> u8;

/// `time::Date::month`, as its number. Claims: it is 1 to 12, a function of
/// the date.
#[verifier::external_body]
fn date_month_call(d: &Date) -> (r: u8)
    ensures
        r == date_month(d.day_number()),
        1 <= r <= 12,
{
    time::Date::from_julian_day(d.jd).unwrap().month() as u8
}

/// `time::Date::day`. Claims: a function of the date.
#[verifier::external_body]
fn date_day_call(d: &Date) -> (r: u8)
    ensures
        r == date_day(d.day_number()),
{
    time::Date::from_julian_day(d.jd).unwrap().day()
}

/// A month of the year.
#[derive(Clone, Copy, PartialEq, Eq, Debug, Structural)]
pub enum Month {
    January,
    February,
    March,
    April,
    May,
    June,
    July,
    August,
    September,
    October,
    November,
    December,
}

/// The English name of the month with the number `m` (1 to 12).
pub open spec fn month_name(m: int) -> Seq<char> {
    if m == 1 {
        "January"@
    } else if m == 2 {
        "February"@
    } else if m == 3 {
        "March"@
    } else if m == 4 {
        "April"@
    } else if m == 5 {
        "May"@
    } else if m == 6 {
        "June"@
    } else if m == 7 {
        "July"@
    } else if m == 8 {
        "August"@
    } else if m == 9 {
        "September"@
    } else if m == 10 {
        "October"@
    } else if m == 11 {
        "November"@
    } else {
        "December"@
    }
}

fn month_name_exec(m: u8) -> (r: &'static str)
    requires
        1 <= m <= 12,
    ensures
        r@ == month_name(m as int),
{
    if m == 1 {
        "January"
    } else if m == 2 {
        "February"
    } else if m == 3 {
        "March"
    } else if m == 4 {
        "April"
    } else if m == 5 {
        "May"
    } else if m == 6 {
        "June"
    } else if m == 7 {
        "July"
    } else if m == 8 {
        "August"
    } else if m == 9 {
        "September"
    } else if m == 10 {
        "October"
    } else if m == 11 {
        "November"
    } else {
        "December"
    }
}

/// The date as "March 1, 2024".
pub fn to_pretty_string(d: &Date) -> (r: String)
    ensures
        r@ == month_name(date_month(d.day_number()) as int) + " "@ + int_display(
            date_day(d.day_number()) as int,
        ) + ", "@ + int_display(date_year(d.day_number()) as int),
{
    let m = date_month_call(d);
    let mut s = month_name_exec(m).to_string();
    s.append(" ");
    let day = int_to_string(date_day_call(d) as i64);
    s.append(day.as_str());
    s.append(", ");
    let y = int_to_string(d.year() as i64);
    s.append(y.as_str());
    s
}

/// The month a text names: its trimmed, lower-cased text begins with the
/// first three letters of the month's English name.
pub open spec fn month_named(m: Seq<char>) -> Option<Month> {
    let t = trim_spec(unicode_lowercase(m));
    if starts_with_spec(t, "jan"@) {
        Some(Month::January)
    } else if starts_with_spec(t, "feb"@) {
        Some(Month::February)
    } else if starts_with_spec(t, "mar"@) {
        Some(Month::March)
    } else if starts_with_spec(t, "apr"@) {
        Some(Month::April)
    } else if starts_with_spec(t, "may"@) {
        Some(Month::May)
    } else if starts_with_spec(t, "jun"@) {
        Some(Month::June)
    } else if starts_with_spec(t, "jul"@) {
        Some(Month::July)
    } else if starts_with_spec(t, "aug"@) {
        Some(Month::August)
    } else if starts_with_spec(t, "sep"@) {
        Some(Month::September)
    } else if starts_with_spec(t, "oct"@) {
        Some(Month::October)
    } else if starts_with_spec(t, "nov"@) {
        Some(Month::November)
    } else if starts_with_spec(t, "dec"@) {
        Some(Month::December)
    } else {
        None
    }
}

/// The month a text names (see `month_named`).
pub fn parse_month(m: &str) -> (r: Result<Month, ()>)
    ensures
        match month_named(m@) {
            Some(x) => r == Ok::<Month, ()>(x),
            None => r is Err,
        },
{
    let lower = to_lowercase(m);
    let t = trim(lower.as_str());
    let t = t.as_str();
    if starts_with(t, "jan") {
        Ok(Month::January)
    } else if starts_with(t, "feb") {
        Ok(Month::February)
    } else if starts_with(t, "mar") {
        Ok(Month::March)
    } else if starts_with(t, "apr") {
        Ok(Month::April)
    } else if starts_with(t, "may") {
        Ok(Month::May)
    } else if starts_with(t, "jun") {
        Ok(Month::June)
    } else if starts_with(t, "jul") {
        Ok(Month::July)
    } else if starts_with(t, "aug") {
        Ok(Month::August)
    } else if starts_with(t, "sep") {
        Ok(Month::September)
    } else if starts_with(t, "oct") {
        Ok(Month::October)
    } else if starts_with(t, "nov") {
        Ok(Month::November)
    } else if starts_with(t, "dec") {
        Ok(Month::December)
    } else {
        Err(())
    }
}

} // verus!

//! Calendar dates of the proleptic Gregorian calendar, and their French names.
use vstd::prelude::*;

use crate::text::{lower_of, lowercase, str_eq};

verus! {

/// A calendar date, held as year, month (1 to 12) and day of the month.
#[derive(Clone, Copy, Debug, PartialEq, Eq, Structural)]
pub struct CalendarDate {
    pub year: i32,
    pub month: u8,
    pub day: u8,
}

/// Whether `y` is a leap year.
pub open spec fn is_leap_year(y: int) -> bool {
    y % 4 == 0 && (y % 100 != 0 || y % 400 == 0)
}

/// The number of days of month `m` of year `y`.
pub open spec fn days_in_month(y: int, m: int) -> int {
    if m == 2 {
        if is_leap_year(y) {
            29
        } else {
            28
        }
    } else if m == 4 || m == 6 || m == 9 || m == 11 {
        30
    } else {
        31
    }
}

/// Whether year, month and day name a date that the `time` crate can hold.
pub open spec fn valid_date(y: int, m: int, d: int) -> bool {
    -9999 <= y <= 9999 && 1 <= m <= 12 && 1 <= d <= days_in_month(y, m)
}

/// The number of days from 1970-01-01 to the given date.
#[verifier::opaque]
pub open spec fn day_number(y: int, m: int, d: int) -> int {
    let yy = if m <= 2 {
        y - 1
    } else {
        y
    };
    let era = yy / 400;
    let yoe = yy - era * 400;
    let mp = if m > 2 {
        m - 3
    } else {
        m + 9
    };
    let doy = (153 * mp + 2) / 5 + d - 1;
    let doe = yoe * 365 + yoe / 4 - yoe / 100 + doy;
    era * 146097 + doe - 719468
}

/// The day of the week, counted from Monday (0) to Sunday (6).
pub open spec fn weekday_index(y: int, m: int, d: int) -> int {
    (day_number(y, m, d) + 3) % 7
}

impl CalendarDate {
    pub open spec fn valid(self) -> bool {
        valid_date(self.year as int, self.month as int, self.day as int)
    }

    pub open spec fn number(self) -> int {
        day_number(self.year as int, self.month as int, self.day as int)
    }

    /// The date, if year, month and day name one.
    pub fn new(year: i32, month: u8, day: u8) -> (r: Option<CalendarDate>)
        ensures
            r is Some <==> valid_date(year as int, month as int, day as int),
            r matches Some(d) ==> d.year == year && d.month == month && d.day == day,
    {
        if date_exists(year, month, day) {
            Some(CalendarDate { year, month, day })
        } else {
            None
        }
    }
}

/// Relies on `time::Month::try_from` and `time::Date::from_calendar_date`: a date is
/// accepted when its month is 1 to 12, its year within ±9999 (the range without
/// the `large-dates` feature, which nothing here enables) and its day within
/// the month.
#[verifier::external_body]
fn date_exists(year: i32, month: u8, day: u8) -> (r: bool)
    ensures
        r == valid_date(year as int, month as int, day as int),
{
    match time::Month::try_from(month) {
        Ok(m) => time::Date::from_calendar_date(year, m, day).is_ok(),
        Err(_) => false,
    }
}

/// Relies on `time::Date::weekday` and `time::Weekday::number_days_from_monday`.
#[verifier::external_body]
pub(crate) fn weekday_of(d: CalendarDate) -> (r: u8)
    requires
        d.valid(),
    ensures
        r as int == weekday_index(d.year as int, d.month as int, d.day as int),
{
    let m = time::Month::try_from(d.month).unwrap();
    time::Date::from_calendar_date(d.year, m, d.day).unwrap().weekday().number_days_from_monday()
}

/// Relies on the difference of two `time::Date` values, read in whole days.
#[verifier::external_body]
pub(crate) fn days_between(a: CalendarDate, b: CalendarDate) -> (r: i64)
    requires
        a.valid(),
        b.valid(),
    ensures
        r as int == a.number() - b.number(),
{
    let ma = time::Month::try_from(a.month).unwrap();
    let mb = time::Month::try_from(b.month).unwrap();
    let da = time::Date::from_calendar_date(a.year, ma, a.day).unwrap();
    let db = time::Date::from_calendar_date(b.year, mb, b.day).unwrap();
    (da - db).whole_days()
}

/// Relies on `time::OffsetDateTime::now_utc`: today's date in UTC, which is a valid date.
#[verifier::external_body]
pub fn today_utc() -> (r: CalendarDate)
    ensures
        r.valid(),
{
    let d = time::OffsetDateTime::now_utc().date();
    CalendarDate { year: d.year(), month: d.month() as u8, day: d.day() }
}

/// The weekday (Monday = 0) that a lower-case French weekday name stands for.
pub open spec fn weekday_of_name(s: Seq<char>) -> Option<u8> {
    if s == "lundi"@ {
        Some(0u8)
    } else if s == "mardi"@ {
        Some(1u8)
    } else if s == "mercredi"@ {
        Some(2u8)
    } else if s == "jeudi"@ {
        Some(3u8)
    } else if s == "vendredi"@ {
        Some(4u8)
    } else if s == "samedi"@ {
        Some(5u8)
    } else if s == "dimanche"@ {
        Some(6u8)
    } else {
        None
    }
}

/// The month (1 to 12) that a lower-case French month name stands for; a few
/// months are also known without their accent.
pub open spec fn month_of_name(s: Seq<char>) -> Option<u8> {
    if s == "janvier"@ {
        Some(1u8)
    } else if s == "février"@ || s == "fevrier"@ {
        Some(2u8)
    } else if s == "mars"@ {
        Some(3u8)
    } else if s == "avril"@ {
        Some(4u8)
    } else if s == "mai"@ {
        Some(5u8)
    } else if s == "juin"@ {
        Some(6u8)
    } else if s == "juillet"@ {
        Some(7u8)
    } else if s == "août"@ || s == "aout"@ {
        Some(8u8)
    } else if s == "septembre"@ {
        Some(9u8)
    } else if s == "octobre"@ {
        Some(10u8)
    } else if s == "novembre"@ {
        Some(11u8)
    } else if s == "décembre"@ || s == "decembre"@ {
        Some(12u8)
    } else {
        None
    }
}

/// Reads a French weekday name, in any case.
pub fn parse_fr_weekday_str(weekday: &str) -> (r: Option<u8>)
    ensures
        r == weekday_of_name(lower_of(weekday@)),
{
    let l = lowercase(weekday);
    let s = l.as_str();
    if str_eq(s, "lundi") {
        Some(0)
    } else if str_eq(s, "mardi") {
        Some(1)
    } else if str_eq(s, "mercredi") {
        Some(2)
    } else if str_eq(s, "jeudi") {
        Some(3)
    } else if str_eq(s, "vendredi") {
        Some(4)
    } else if str_eq(s, "samedi") {
        Some(5)
    } else if str_eq(s, "dimanche") {
        Some(6)
    } else {
        None
    }
}

/// Reads a French month name, in any case.
pub fn parse_fr_month_str(month: &str) -> (r: Option<u8>)
    ensures
        r == month_of_name(lower_of(month@)),
{
    let l = lowercase(month);
    let s = l.as_str();
    if str_eq(s, "janvier") {
        Some(1)
    } else if str_eq(s, "février") || str_eq(s, "fevrier") {
        Some(2)
    } else if str_eq(s, "mars") {
        Some(3)
    } else if str_eq(s, "avril") {
        Some(4)
    } else if str_eq(s, "mai") {
        Some(5)
    } else if str_eq(s, "juin") {
        Some(6)
    } else if str_eq(s, "juillet") {
        Some(7)
    } else if str_eq(s, "août") || str_eq(s, "aout") {
        Some(8)
    } else if str_eq(s, "septembre") {
        Some(9)
    } else if str_eq(s, "octobre") {
        Some(10)
    } else if str_eq(s, "novembre") {
        Some(11)
    } else if str_eq(s, "décembre") || str_eq(s, "decembre") {
        Some(12)
    } else {
        None
    }
}

/// The distance in days between the given date and `today`.
pub open spec fn distance(y: int, m: int, d: int, today: CalendarDate) -> int {
    let k = day_number(y, m, d) - today.number();
    if k < 0 {
        -k
    } else {
        k
    }
}

/// Whether year `y` gives month `m` and day `d` the weekday `wd`.
pub open spec fn year_fits(y: int, m: int, d: int, wd: int) -> bool {
    valid_date(y, m, d) && weekday_index(y, m, d) == wd
}

/// Whether `y` is within a year of `today`'s year.
pub open spec fn near_year(y: int, today: CalendarDate) -> bool {
    today.year - 1 <= y <= today.year + 1
}

/// Whether `y` is the year that day `d` of month `m`, a weekday `wd`, is given:
/// among the years within one of `today`'s that give that weekday, the one whose
/// date is nearest to `today`, the earliest on a tie.
pub open spec fn is_best_year(y: int, m: int, d: int, wd: int, today: CalendarDate) -> bool {
    &&& near_year(y, today)
    &&& year_fits(y, m, d, wd)
    &&& forall|z: int|
        #![trigger year_fits(z, m, d, wd)]
        near_year(z, today) && year_fits(z, m, d, wd) ==> distance(y, m, d, today) < distance(
            z,
            m,
            d,
            today,
        ) || (distance(y, m, d, today) == distance(z, m, d, today) && y <= z)
}

/// The date of day `d` of month `m` that falls on weekday `wd`, in the year
/// within one of `today`'s that is nearest to `today`.
pub open spec fn nearest_date(wd: int, d: int, m: int, today: CalendarDate) -> Option<CalendarDate> {
    if exists|y: int| is_best_year(y, m, d, wd, today) {
        let y = choose|y: int| is_best_year(y, m, d, wd, today);
        Some(CalendarDate { year: y as i32, month: m as u8, day: d as u8 })
    } else {
        None
    }
}

/// At most one year is the best.
pub proof fn lemma_best_year_unique(y: int, z: int, m: int, d: int, wd: int, today: CalendarDate)
    requires
        is_best_year(y, m, d, wd, today),
        is_best_year(z, m, d, wd, today),
    ensures
        y == z,
{
    assert(year_fits(z, m, d, wd));
    assert(year_fits(y, m, d, wd));
}

/// The date of day `day` of month `month` that falls on weekday `weekday`
/// (Monday = 0), in the year nearest to `today`.
pub fn resolve_date(weekday: u8, day: u8, month: u8, today: CalendarDate) -> (r: Option<CalendarDate>)
    requires
        today.valid(),
    ensures
        r is None <==> (forall|z: int|
            near_year(z, today) ==> !year_fits(z, month as int, day as int, weekday as int)),
        r matches Some(date) ==> date.month == month && date.day == day && is_best_year(
            date.year as int,
            month as int,
            day as int,
            weekday as int,
            today,
        ),
        r == nearest_date(weekday as int, day as int, month as int, today),
{
    let mut best: Option<CalendarDate> = None;
    let mut best_dist: i128 = 0;
    let mut k: i32 = 0;
    while k < 3
        invariant
            today.valid(),
            0 <= k <= 3,
            best is None ==> (forall|z: int|
                #![trigger year_fits(z, month as int, day as int, weekday as int)]
                today.year - 1 <= z < today.year - 1 + k ==> !year_fits(
                    z,
                    month as int,
                    day as int,
                    weekday as int,
                )),
            best matches Some(date) ==> {
                &&& date.month == month
                &&& date.day == day
                &&& today.year - 1 <= date.year < today.year - 1 + k
                &&& year_fits(date.year as int, month as int, day as int, weekday as int)
                &&& best_dist == distance(date.year as int, month as int, day as int, today)
                &&& forall|z: int|
                    #![trigger year_fits(z, month as int, day as int, weekday as int)]
                    today.year - 1 <= z < today.year - 1 + k && year_fits(
                        z,
                        month as int,
                        day as int,
                        weekday as int,
                    ) ==> best_dist < distance(z, month as int, day as int, today) || (best_dist
                        == distance(z, month as int, day as int, today) && date.year <= z)
            },
        decreases 3 - k,
    {
        let year = today.year - 1 + k;
        let ghost prev = best;
        match CalendarDate::new(year, month, day) {
            Some(candidate) => {
                if weekday_of(candidate) == weekday {
                    let diff = days_between(candidate, today) as i128;
                    let dist = if diff < 0 {
                        -diff
                    } else {
                        diff
                    };
                    if best.is_none() || dist < best_dist {
                        best = Some(candidate);
                        best_dist = dist;
                    }
                }
            },
            None => {},
        }
        k = k + 1;
    }
    proof {
        if let Some(date) = best {
            assert(near_year(date.year as int, today));
            assert(year_fits(date.year as int, month as int, day as int, weekday as int));
            assert(is_best_year(date.year as int, month as int, day as int, weekday as int, today));
            let y = choose|y: int| is_best_year(y, month as int, day as int, weekday as int, today);
            lemma_best_year_unique(y, date.year as int, month as int, day as int, weekday as int, today);
        } else {
            assert forall|y: int| !is_best_year(y, month as int, day as int, weekday as int, today) by {
                if is_best_year(y, month as int, day as int, weekday as int, today) {
                    assert(near_year(y, today));
                }
            }
        }
    }
    best
}

/// The ISO week number that `time::Date::iso_week` gives a date.
pub uninterp spec fn iso_week_of(y: int, m: int, d: int) -> int;

/// Relies on `time::Date::iso_week`: the ISO week number, from 1 to 53.
#[verifier::external_body]
pub(crate) fn iso_week(d: CalendarDate) -> (r: u8)
    requires
        d.valid(),
    ensures
        r as int == iso_week_of(d.year as int, d.month as int, d.day as int),
        1 <= r <= 53,
{
    let m = time::Month::try_from(d.month).unwrap();
    time::Date::from_calendar_date(d.year, m, d.day).unwrap().iso_week()
}

/// The French name of a weekday (Monday = 0), in lower case.
pub open spec fn weekday_name(w: u8) -> Seq<char> {
    if w == 0 {
        "lundi"@
    } else if w == 1 {
        "mardi"@
    } else if w == 2 {
        "mercredi"@
    } else if w == 3 {
        "jeudi"@
    } else if w == 4 {
        "vendredi"@
    } else if w == 5 {
        "samedi"@
    } else {
        "dimanche"@
    }
}

/// The French name of a weekday (Monday = 0), in title case.
pub open spec fn weekday_title(w: u8) -> Seq<char> {
    if w == 0 {
        "Lundi"@
    } else if w == 1 {
        "Mardi"@
    } else if w == 2 {
        "Mercredi"@
    } else if w == 3 {
        "Jeudi"@
    } else if w == 4 {
        "Vendredi"@
    } else if w == 5 {
        "Samedi"@
    } else {
        "Dimanche"@
    }
}

/// The French name of a month (1 to 12), in lower case.
pub open spec fn month_name(m: u8) -> Seq<char> {
    if m == 1 {
        "janvier"@
    } else if m == 2 {
        "février"@
    } else if m == 3 {
        "mars"@
    } else if m == 4 {
        "avril"@
    } else if m == 5 {
        "mai"@
    } else if m == 6 {
        "juin"@
    } else if m == 7 {
        "juillet"@
    } else if m == 8 {
        "août"@
    } else if m == 9 {
        "septembre"@
    } else if m == 10 {
        "octobre"@
    } else if m == 11 {
        "novembre"@
    } else {
        "décembre"@
    }
}

/// The French name of a weekday (Monday = 0), in title case when `titlecase`.
pub fn weekday_as_fr_str(weekday: u8, titlecase: bool) -> (r: &'static str)
    requires
        weekday < 7,
    ensures
        r@ == if titlecase {
            weekday_title(weekday)
        } else {
            weekday_name(weekday)
        },
{
    if titlecase {
        match weekday {
            0 => "Lundi",
            1 => "Mardi",
            2 => "Mercredi",
            3 => "Jeudi",
            4 => "Vendredi",
            5 => "Samedi",
            _ => "Dimanche",
        }
    } else {
        match weekday {
            0 => "lundi",
            1 => "mardi",
            2 => "mercredi",
            3 => "jeudi",
            4 => "vendredi",
            5 => "samedi",
            _ => "dimanche",
        }
    }
}

/// The French name of a month (1 to 12), in lower case.
pub fn month_as_fr_str(month: u8) -> (r: &'static str)
    requires
        1 <= month <= 12,
    ensures
        r@ == month_name(month),
{
    match month {
        1 => "janvier",
        2 => "février",
        3 => "mars",
        4 => "avril",
        5 => "mai",
        6 => "juin",
        7 => "juillet",
        8 => "août",
        9 => "septembre",
        10 => "octobre",
        11 => "novembre",
        _ => "décembre",
    }
}

/// The decimal digit `d` as a character.
pub open spec fn digit_char(d: int) -> char {
    if d == 0 {
        '0'
    } else if d == 1 {
        '1'
    } else if d == 2 {
        '2'
    } else if d == 3 {
        '3'
    } else if d == 4 {
        '4'
    } else if d == 5 {
        '5'
    } else if d == 6 {
        '6'
    } else if d == 7 {
        '7'
    } else if d == 8 {
        '8'
    } else {
        '9'
    }
}

/// The decimal writing of `n`, without leading zeros.
pub open spec fn decimal(n: nat) -> Seq<char>
    decreases n,
{
    if n < 10 {
        seq![digit_char(n as int)]
    } else {
        decimal(n / 10).push(digit_char((n % 10) as int))
    }
}

fn digit_str(d: u8) -> (r: &'static str)
    requires
        d < 10,
    ensures
        r@ == seq![digit_char(d as int)],
{
    proof {
        reveal_strlit("0");
        reveal_strlit("1");
        reveal_strlit("2");
        reveal_strlit("3");
        reveal_strlit("4");
        reveal_strlit("5");
        reveal_strlit("6");
        reveal_strlit("7");
        reveal_strlit("8");
        reveal_strlit("9");
    }
    let r = match d {
        0 => "0",
        1 => "1",
        2 => "2",
        3 => "3",
        4 => "4",
        5 => "5",
        6 => "6",
        7 => "7",
        8 => "8",
        _ => "9",
    };
    assert(r@ =~= seq![digit_char(d as int)]);
    r
}

/// The decimal writing of `n`.
pub fn decimal_string(n: u8) -> (r: String)
    ensures
        r@ == decimal(n as nat),
    decreases n,
{
    if n < 10 {
        String::from_str(digit_str(n))
    } else {
        let mut r = decimal_string(n / 10);
        r.append(digit_str(n % 10));
        assert(r@ =~= decimal((n / 10) as nat).push(digit_char((n % 10) as int)));
        r
    }
}

/// How a date reads in French seen from `today`: today, tomorrow, a weekday
/// of the coming week, or the weekday, day and month.
pub open spec fn human_date(date: CalendarDate, today: CalendarDate) -> Seq<char> {
    let diff = date.number() - today.number();
    let w = weekday_index(date.year as int, date.month as int, date.day as int) as u8;
    if date == today {
        "aujourd'hui"@
    } else if diff == 1 {
        "demain"@
    } else if 0 < diff <= 7 {
        weekday_name(w) + " prochain"@
    } else {
        "le "@ + weekday_name(w) + " "@ + decimal(date.day as nat) + " "@ + month_name(date.month)
    }
}

/// How a date reads in French seen from `today`.
pub fn format_human_date(date: CalendarDate, today: CalendarDate) -> (r: String)
    requires
        date.valid(),
        today.valid(),
    ensures
        r@ == human_date(date, today),
{
    if date == today {
        return String::from_str("aujourd'hui");
    }
    let diff = days_between(date, today);
    if diff == 1 {
        return String::from_str("demain");
    }
    let w = weekday_of(date);
    proof {
        assert(0 <= weekday_index(date.year as int, date.month as int, date.day as int) < 7);
    }
    if 0 < diff && diff <= 7 {
        let mut r = String::from_str(weekday_as_fr_str(w, false));
        r.append(" prochain");
        return r;
    }
    let mut r = String::from_str("le ");
    r.append(weekday_as_fr_str(w, false));
    r.append(" ");
    let d = decimal_string(date.day);
    r.append(d.as_str());
    r.append(" ");
    r.append(month_as_fr_str(date.month));
    r
}

/// The day of the month of the last Sunday of month `m` of year `y`.
pub open spec fn last_sunday(y: int, m: int) -> int {
    let end = days_in_month(y, m);
    end - (weekday_index(y, m, end) + 1) % 7
}

/// The year of France's local date at the given UTC instant, read in winter
/// time (one hour ahead of UTC).
pub open spec fn winter_year(utc: CalendarDate, seconds: u32) -> int {
    if utc.month == 12 && utc.day == 31 && seconds >= 82800 {
        utc.year + 1
    } else {
        utc.year as int
    }
}

/// Whether summer time is in force in France at the given UTC instant: from
/// 01:00 UTC on the last Sunday of March to 01:00 UTC on the last Sunday of
/// October.
pub open spec fn summer_time(utc: CalendarDate, seconds: u32) -> bool {
    let y = winter_year(utc, seconds);
    let now = utc.number() * 86400 + seconds;
    let start = day_number(y, 3, last_sunday(y, 3)) * 86400 + 3600;
    let end = day_number(y, 10, last_sunday(y, 10)) * 86400 + 3600;
    start <= now < end
}

/// The day of the month of the last Sunday of month `m` of year `y`.
fn last_sunday_of_month(y: i32, m: u8) -> (r: CalendarDate)
    requires
        valid_date(y as int, m as int, 1),
    ensures
        r == (CalendarDate { year: y, month: m, day: last_sunday(y as int, m as int) as u8 }),
        r.valid(),
{
    let end: u8 = if m == 2 {
        if y % 4 == 0 && (y % 100 != 0 || y % 400 == 0) {
            29
        } else {
            28
        }
    } else if m == 4 || m == 6 || m == 9 || m == 11 {
        30
    } else {
        31
    };
    let month_end = CalendarDate { year: y, month: m, day: end };
    let w = weekday_of(month_end);
    proof {
        assert(0 <= weekday_index(y as int, m as int, end as int) < 7);
    }
    CalendarDate { year: y, month: m, day: end - (w + 1) % 7 }
}

/// France's offset from UTC, in hours, at the given UTC instant (`seconds`
/// since midnight), by the rules of central European time.
pub fn central_european_offset(utc: CalendarDate, seconds: u32) -> (r: i8)
    requires
        utc.valid(),
        seconds < 86400,
        winter_year(utc, seconds) <= 9999,
    ensures
        r == if summer_time(utc, seconds) {
            2i8
        } else {
            1i8
        },
{
    let y: i32 = if utc.month == 12 && utc.day == 31 && seconds >= 82800 {
        utc.year + 1
    } else {
        utc.year
    };
    let start = last_sunday_of_month(y, 3);
    let end = last_sunday_of_month(y, 10);
    let to_start = days_between(utc, start) as i128 * 86400 + seconds as i128 - 3600;
    let to_end = days_between(utc, end) as i128 * 86400 + seconds as i128 - 3600;
    if to_start >= 0 && to_end < 0 {
        2
    } else {
        1
    }
}

/// `s` with zeros in front, up to `width` characters.
pub open spec fn zero_padded(s: Seq<char>, width: nat) -> Seq<char> {
    if s.len() >= width {
        s
    } else {
        Seq::new((width - s.len()) as nat, |i: int| '0') + s
    }
}

/// A date written `year-month-day`: the year in at least four digits, after a
/// minus sign when it is negative, the month and the day in two digits.
pub open spec fn date_text(d: CalendarDate) -> Seq<char> {
    let y = d.year as int;
    let sign = if y < 0 {
        "-"@
    } else {
        Seq::empty()
    };
    let magnitude = if y < 0 {
        -y
    } else {
        y
    };
    sign + zero_padded(decimal(magnitude as nat), 4) + "-"@ + zero_padded(decimal(d.month as nat), 2)
        + "-"@ + zero_padded(decimal(d.day as nat), 2)
}

/// Relies on `time::Date::format` with the description `[year]-[month]-[day]`,
/// read by `time::format_description::parse`.
#[verifier::external_body]
pub fn format_date(date: CalendarDate) -> (r: String)
    requires
        date.valid(),
    ensures
        r@ == date_text(date),
{
    let m = time::Month::try_from(date.month).unwrap();
    let description = time::format_description::parse("[year]-[month]-[day]").unwrap();
    time::Date::from_calendar_date(date.year, m, date.day).unwrap().format(&description).unwrap()
}

} // verus!

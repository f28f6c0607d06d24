//! A day of the menu: its date and its dishes, and how a header gives the date.
use vstd::prelude::*;

use crate::calendar::{
    format_human_date, human_date,
    nearest_date, parse_fr_month_str, parse_fr_weekday_str, resolve_date, today_utc,
    valid_date, month_of_name, weekday_of_name, CalendarDate,
};
use crate::error::Error;
use crate::text::{
    join_first, join_spec,
    any_alphabetic, has_alphabetic, lower_of, parse_i16, parse_i16_spec, parse_u8,
    parse_u8_spec, split_once, split_once_spec,
};

verus! {

/// The date that a header written with words gives: a French weekday, a day
/// of the month and a French month, the year being the nearest to `today`
/// that gives that weekday.
pub open spec fn worded_header_date(s: Seq<char>, today: CalendarDate) -> Option<CalendarDate> {
    match split_once_spec(s, ' ') {
        Some((w, rest)) => match split_once_spec(rest, ' ') {
            Some((d, m)) => match (
                weekday_of_name(lower_of(w)),
                parse_u8_spec(d),
                month_of_name(lower_of(m)),
            ) {
                (Some(wd), Some(dd), Some(mm)) => nearest_date(
                    wd as int,
                    dd as int,
                    mm as int,
                    today,
                ),
                _ => None,
            },
            None => None,
        },
        None => None,
    }
}

/// The date that a numeric header `year-month-day` gives.
pub open spec fn numeric_header_date(s: Seq<char>) -> Option<CalendarDate> {
    match split_once_spec(s, '-') {
        Some((y, rest)) => match split_once_spec(rest, '-') {
            Some((m, d)) => match (parse_i16_spec(y), parse_i16_spec(m), parse_i16_spec(d)) {
                (Some(yy), Some(mm), Some(dd)) => if valid_date(yy as int, mm as int, dd as int) {
                    Some(CalendarDate { year: yy as i32, month: mm as u8, day: dd as u8 })
                } else {
                    None
                },
                _ => None,
            },
            None => None,
        },
        None => None,
    }
}

/// The date that the header of a column gives, `today` being the date now.
pub open spec fn header_date(s: Seq<char>, today: CalendarDate) -> Option<CalendarDate> {
    if has_alphabetic(s) {
        worded_header_date(s, today)
    } else {
        numeric_header_date(s)
    }
}

/// Reads the date of a column's header, `today` being the date now.
pub fn parse_header_date(s: &str, today: CalendarDate) -> (r: Option<CalendarDate>)
    requires
        today.valid(),
    ensures
        r == header_date(s@, today),
        r matches Some(d) ==> d.valid(),
{
    if any_alphabetic(s) {
        let (w, rest) = match split_once(s, ' ') {
            Some(p) => p,
            None => return None,
        };
        let (d, m) = match split_once(rest.as_str(), ' ') {
            Some(p) => p,
            None => return None,
        };
        let wd = match parse_fr_weekday_str(w.as_str()) {
            Some(x) => x,
            None => return None,
        };
        let dd = match parse_u8(d.as_str()) {
            Some(x) => x,
            None => return None,
        };
        let mm = match parse_fr_month_str(m.as_str()) {
            Some(x) => x,
            None => return None,
        };
        let r = resolve_date(wd, dd, mm, today);
        proof {
            if let Some(date) = r {
                assert(date.valid());
            }
        }
        r
    } else {
        let (y, rest) = match split_once(s, '-') {
            Some(p) => p,
            None => return None,
        };
        let (m, d) = match split_once(rest.as_str(), '-') {
            Some(p) => p,
            None => return None,
        };
        let yy = match parse_i16(y.as_str()) {
            Some(x) => x,
            None => return None,
        };
        let mm = match parse_i16(m.as_str()) {
            Some(x) => x,
            None => return None,
        };
        let dd = match parse_i16(d.as_str()) {
            Some(x) => x,
            None => return None,
        };
        if mm < 1 || mm > 12 || dd < 1 || dd > 31 {
            return None;
        }
        CalendarDate::new(yy as i32, mm as u8, dd as u8)
    }
}

/// What a day holds: its date and its dishes, in order.
pub ghost struct DayView {
    pub date: CalendarDate,
    pub dishes: Seq<Seq<char>>,
}

/// The character views of a list of strings.
pub open spec fn views(v: Seq<String>) -> Seq<Seq<char>> {
    v.map_values(|s: String| s@)
}

/// A day of the menu.
#[derive(Clone, Debug)]
pub struct Day {
    date: CalendarDate,
    dishes: Vec<String>,
}

impl View for Day {
    type V = DayView;

    closed spec fn view(&self) -> DayView {
        DayView { date: self.date, dishes: views(self.dishes@) }
    }
}

/// The day that a column's fields give: `None` for a lone header, an error
/// when there are no fields or when the header gives no date.
pub open spec fn day_of_fields(fields: Seq<Seq<char>>, today: CalendarDate) -> Result<
    Option<DayView>,
    Error,
> {
    if fields.len() == 0 {
        Err(Error::InvalidPdf)
    } else if fields.len() == 1 {
        Ok(None)
    } else {
        match header_date(fields[0], today) {
            Some(date) => Ok(Some(DayView { date, dishes: fields.skip(1) })),
            None => Err(Error::InvalidPdf),
        }
    }
}

/// The dishes as a French list: `a, b et c`, or the only dish.
pub open spec fn dishes_sentence(ds: Seq<Seq<char>>) -> Seq<char> {
    if ds.len() >= 2 {
        join_spec(ds.drop_last(), ", "@) + " et "@ + ds.last()
    } else {
        join_spec(ds, ", "@)
    }
}

/// The day as text: for a reader, a French sentence that dates the menu from
/// `today`; otherwise one dish per line.
pub open spec fn day_text(d: DayView, human: bool, today: CalendarDate) -> Seq<char> {
    if human {
        "Au menu "@ + human_date(d.date, today) + " : "@ + dishes_sentence(d.dishes) + "."@
    } else {
        join_spec(d.dishes, "\n"@)
    }
}

/// Whether `r` is the day that the fields give, `today` being the date now.
pub open spec fn day_made(r: Result<Option<Day>, Error>, fields: Seq<Seq<char>>, today: CalendarDate) -> bool {
    match (r, day_of_fields(fields, today)) {
        (Ok(Some(d)), Ok(Some(v))) => d@ == v && d.wf(),
        (Ok(None), Ok(None)) => true,
        (Err(e), Err(f)) => e == f,
        _ => false,
    }
}

impl Day {
    /// The day as text, `today` being the date now.
    pub fn as_plain_text(&self, human: bool, today: CalendarDate) -> (r: String)
        requires
            self.wf(),
            today.valid(),
        ensures
            r@ == day_text(self@, human, today),
    {
        let n = self.dishes.len();
        assert(self.dishes@.subrange(0, n as int) =~= self.dishes@);
        if !human {
            return join_first(&self.dishes, n, "\n");
        }
        let mut r = String::from_str("Au menu ");
        let when = format_human_date(self.date, today);
        r.append(when.as_str());
        r.append(" : ");
        if n >= 2 {
            let head = join_first(&self.dishes, n - 1, ", ");
            r.append(head.as_str());
            r.append(" et ");
            r.append(self.dishes[n - 1].as_str());
            assert(self.dishes@.subrange(0, n - 1).map_values(|s: String| s@) =~= views(self.dishes@).drop_last());
        } else {
            let all = join_first(&self.dishes, n, ", ");
            r.append(all.as_str());
        }
        r.append(".");
        r
    }

    /// Whether the day is one that the library makes: a valid date and at
    /// least one dish.
    pub open spec fn wf(&self) -> bool {
        self@.date.valid() && self@.dishes.len() >= 1
    }

    /// The day that a column's fields give, `today` being the date now.
    pub fn new_at(fields: Vec<String>, today: CalendarDate) -> (r: Result<Option<Day>, Error>)
        requires
            today.valid(),
        ensures
            day_made(r, views(fields@), today),
    {
        let n = fields.len();
        if n == 0 {
            return Err(Error::InvalidPdf);
        }
        if n == 1 {
            return Ok(None);
        }
        let date = match parse_header_date(fields[0].as_str(), today) {
            Some(d) => d,
            None => return Err(Error::InvalidPdf),
        };
        let mut dishes: Vec<String> = Vec::new();
        let mut i: usize = 1;
        while i < n
            invariant
                n == fields@.len(),
                1 <= i <= n,
                dishes@.len() == i - 1,
                forall|k: int| 0 <= k < i - 1 ==> #[trigger] dishes@[k]@ == fields@[k + 1]@,
            decreases n - i,
        {
            let dish = fields[i].clone();
            dishes.push(dish);
            i = i + 1;
        }
        assert(views(dishes@) =~= views(fields@).skip(1));
        Ok(Some(Day { date, dishes }))
    }

    /// The day that a column's fields give, the year of a worded header being
    /// chosen near today's date.
    pub fn new(fields: Vec<String>) -> (r: Result<Option<Day>, Error>)
        ensures
            exists|today: CalendarDate| today.valid() && day_made(r, views(fields@), today),
    {
        let today = today_utc();
        Day::new_at(fields, today)
    }

    /// A copy of the day.
    pub fn duplicate(&self) -> (r: Day)
        ensures
            r@ == self@,
            self.wf() ==> r.wf(),
    {
        let mut dishes: Vec<String> = Vec::new();
        let mut i: usize = 0;
        while i < self.dishes.len()
            invariant
                i <= self.dishes@.len(),
                dishes@.len() == i,
                forall|k: int| 0 <= k < i ==> #[trigger] dishes@[k]@ == self.dishes@[k]@,
            decreases self.dishes.len() - i,
        {
            dishes.push(self.dishes[i].clone());
            i = i + 1;
        }
        assert(views(dishes@) =~= views(self.dishes@));
        Day { date: self.date, dishes }
    }

    /// The date as a tuple of year, month and day, which compare in date order.
    pub fn date_key(&self) -> (r: (i32, u8, u8))
        ensures
            r == (self@.date.year, self@.date.month, self@.date.day),
    {
        (self.date.year, self.date.month, self.date.day)
    }

    pub fn date(&self) -> (r: CalendarDate)
        ensures
            r == self@.date,
    {
        self.date
    }

    pub fn replace_dishes(&mut self, dishes: Vec<String>)
        ensures
            final(self)@ == (DayView { dishes: views(dishes@), ..old(self)@ }),
    {
        self.dishes = dishes;
    }

    pub fn dishes(self) -> (r: Vec<String>)
        ensures
            views(r@) == self@.dishes,
    {
        self.dishes
    }

    pub fn dishes_ref(&self) -> (r: &Vec<String>)
        ensures
            views(r@) == self@.dishes,
    {
        &self.dishes
    }
}

} // verus!

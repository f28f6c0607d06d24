//! The store of known days, kept in date order, one day per date.
use vstd::prelude::*;

use crate::calendar::{date_text, format_date, iso_week, iso_week_of, CalendarDate};
use crate::day::{day_text, views, Day, DayView};
use crate::error::Error;
use crate::text::{contains_seq, join_first, join_spec, lower_of, lowercase, str_contains};
use crate::fragment::{position_le, sort_positions};
use crate::week::day_views;

verus! {

/// Whether date `a` comes before date `b`.
pub open spec fn date_lt(a: CalendarDate, b: CalendarDate) -> bool {
    a.year < b.year || (a.year == b.year && (a.month < b.month || (a.month == b.month && a.day
        < b.day)))
}

/// Whether the days are in strictly increasing date order.
pub open spec fn dates_increasing(ds: Seq<DayView>) -> bool {
    forall|i: int, j: int| 0 <= i < j < ds.len() ==> date_lt(#[trigger] ds[i].date, #[trigger] ds[j].date)
}

/// Whether some day has date `d`.
pub open spec fn has_date(ds: Seq<DayView>, d: CalendarDate) -> bool {
    exists|i: int| 0 <= i < ds.len() && (#[trigger] ds[i]).date == d
}

/// Whether `k` is where a day of date `d` goes among the days.
pub open spec fn insertion_point(ds: Seq<DayView>, d: CalendarDate, k: int) -> bool {
    &&& 0 <= k <= ds.len()
    &&& forall|j: int| 0 <= j < k ==> date_lt((#[trigger] ds[j]).date, d)
    &&& forall|j: int| k <= j < ds.len() ==> date_lt(d, (#[trigger] ds[j]).date)
}

/// The days with `x` added: a day of the same date takes the dishes of `x`;
/// otherwise `x` goes at its place in date order.
pub open spec fn insert_day(ds: Seq<DayView>, x: DayView) -> Seq<DayView> {
    if has_date(ds, x.date) {
        let i = choose|i: int| 0 <= i < ds.len() && (#[trigger] ds[i]).date == x.date;
        ds.update(i, DayView { date: ds[i].date, dishes: x.dishes })
    } else {
        let k = choose|k: int| insertion_point(ds, x.date, k);
        ds.insert(k, x)
    }
}

/// The days with each of `xs` added in turn.
pub open spec fn insert_days(ds: Seq<DayView>, xs: Seq<DayView>) -> Seq<DayView>
    decreases xs.len(),
{
    if xs.len() == 0 {
        ds
    } else {
        insert_day(insert_days(ds, xs.drop_last()), xs.last())
    }
}

/// The dates of `xs` that were new when they were added, in turn.
pub open spec fn new_dates(ds: Seq<DayView>, xs: Seq<DayView>) -> Seq<CalendarDate>
    decreases xs.len(),
{
    if xs.len() == 0 {
        Seq::empty()
    } else {
        let p = new_dates(ds, xs.drop_last());
        if has_date(insert_days(ds, xs.drop_last()), xs.last().date) {
            p
        } else {
            p.push(xs.last().date)
        }
    }
}

/// The dates of `xs` that were already known when they were added, in turn.
pub open spec fn replaced_dates(ds: Seq<DayView>, xs: Seq<DayView>) -> Seq<CalendarDate>
    decreases xs.len(),
{
    if xs.len() == 0 {
        Seq::empty()
    } else {
        let p = replaced_dates(ds, xs.drop_last());
        if has_date(insert_days(ds, xs.drop_last()), xs.last().date) {
            p.push(xs.last().date)
        } else {
            p
        }
    }
}

/// Whether `sorted[k]` is `dates[p[k]]` for each `k`, in date order, equal
/// dates keeping their order.
pub open spec fn date_permutation(dates: Seq<CalendarDate>, sorted: Seq<CalendarDate>, p: Seq<int>) -> bool {
    &&& p.len() == dates.len()
    &&& sorted.len() == dates.len()
    &&& forall|k: int| 0 <= k < p.len() ==> 0 <= #[trigger] p[k] < dates.len()
    &&& forall|k: int| 0 <= k < p.len() ==> sorted[k] == dates[#[trigger] p[k]]
    &&& forall|k: int, l: int|
        0 <= k < l < p.len() ==> date_lt(dates[#[trigger] p[k]], dates[#[trigger] p[l]]) || (dates[p[k]]
            == dates[p[l]] && p[k] < p[l])
}

/// Whether `sorted` holds `dates` in date order, equal dates keeping their order.
pub open spec fn is_sorted_dates(dates: Seq<CalendarDate>, sorted: Seq<CalendarDate>) -> bool {
    exists|p: Seq<int>| date_permutation(dates, sorted, p)
}

/// The dates in date order.
pub fn sort_dates(dates: &Vec<CalendarDate>) -> (r: Vec<CalendarDate>)
    requires
        forall|k: int| 0 <= k < dates@.len() ==> (#[trigger] dates@[k]).valid(),
    ensures
        is_sorted_dates(dates@, r@),
{
    let n = dates.len();
    let mut keys: Vec<(u32, u32, usize)> = Vec::new();
    let mut i: usize = 0;
    while i < n
        invariant
            n == dates@.len(),
            forall|k: int| 0 <= k < n ==> (#[trigger] dates@[k]).valid(),
            i <= n,
            keys@.len() == i,
            forall|k: int| 0 <= k < i ==> #[trigger] keys@[k] == ((dates@[k].year + 10000) as u32,
                (dates@[k].month * 32 + dates@[k].day) as u32, k as usize),
        decreases n - i,
    {
        let d = dates[i];
        keys.push(((d.year + 10000) as u32, d.month as u32 * 32 + d.day as u32, i));
        i = i + 1;
    }
    let ghost unsorted = keys@;
    proof {
        assert(unsorted.no_duplicates());
        unsorted.lemma_multiset_has_no_duplicates();
    }
    sort_positions(&mut keys);
    let ghost sorted = keys@;
    proof {
        broadcast use vstd::seq_lib::group_to_multiset_ensures;
        assert(sorted.to_multiset().len() == unsorted.to_multiset().len());
        sorted.lemma_multiset_has_no_duplicates_conv();
        assert forall|k: int| 0 <= k < n implies #[trigger] sorted[k].2 < n && sorted[k] == unsorted[sorted[k].2 as int] by {
            assert(sorted.to_multiset().count(sorted[k]) > 0);
            assert(unsorted.contains(sorted[k]));
        }
    }
    let mut r: Vec<CalendarDate> = Vec::new();
    let mut j: usize = 0;
    while j < n
        invariant
            n == dates@.len(),
            keys@ == sorted,
            sorted.len() == n,
            forall|k: int| 0 <= k < n ==> #[trigger] sorted[k].2 < n && sorted[k] == unsorted[sorted[k].2 as int],
            j <= n,
            r@.len() == j,
            forall|k: int| 0 <= k < j ==> #[trigger] r@[k] == dates@[sorted[k].2 as int],
        decreases n - j,
    {
        r.push(dates[keys[j].2]);
        j = j + 1;
    }
    proof {
        let p = sorted.map_values(|t: (u32, u32, usize)| t.2 as int);
        assert forall|k: int, l: int| 0 <= k < l < p.len() implies date_lt(dates@[#[trigger] p[k]], dates@[#[trigger] p[l]]) || (dates@[p[k]]
            == dates@[p[l]] && p[k] < p[l]) by {
            assert(position_le(sorted[k], sorted[l]));
            assert(sorted.no_duplicates());
            assert(sorted[k] != sorted[l]);
            assert(sorted[k] == unsorted[sorted[k].2 as int]);
            assert(sorted[l] == unsorted[sorted[l].2 as int]);
        }
        assert(date_permutation(dates@, r@, p));
    }
    r
}

/// The dates that one addition of days brought in and those that it replaced.
#[derive(Clone, Debug, Default)]
pub struct CatalogueUpdate {
    pub inserted: Vec<CalendarDate>,
    pub replaced: Vec<CalendarDate>,
}

impl CatalogueUpdate {
    pub fn is_empty(&self) -> (r: bool)
        ensures
            r == (self.inserted@.len() == 0 && self.replaced@.len() == 0),
    {
        self.inserted.len() == 0 && self.replaced.len() == 0
    }

    /// Adds the dates of a later update: its new dates, then those of its
    /// replaced dates that are not new here.
    pub fn add_assign(&mut self, rhs: CatalogueUpdate)
        ensures
            final(self).inserted@ == old(self).inserted@ + rhs.inserted@,
            final(self).replaced@ == old(self).replaced@ + rhs.replaced@.filter(
                |d: CalendarDate| !(old(self).inserted@ + rhs.inserted@).contains(d),
            ),
    {
        let ghost keep = |d: CalendarDate| !(old(self).inserted@ + rhs.inserted@).contains(d);
        let mut i: usize = 0;
        while i < rhs.inserted.len()
            invariant
                i <= rhs.inserted@.len(),
                self.inserted@ == old(self).inserted@ + rhs.inserted@.subrange(0, i as int),
                self.replaced@ == old(self).replaced@,
            decreases rhs.inserted.len() - i,
        {
            self.inserted.push(rhs.inserted[i]);
            assert(rhs.inserted@.subrange(0, i + 1) =~= rhs.inserted@.subrange(0, i as int).push(rhs.inserted@[i as int]));
            i = i + 1;
        }
        assert(rhs.inserted@.subrange(0, rhs.inserted@.len() as int) =~= rhs.inserted@);
        let ghost all = self.inserted@;
        let mut j: usize = 0;
        while j < rhs.replaced.len()
            invariant
                j <= rhs.replaced@.len(),
                all == old(self).inserted@ + rhs.inserted@,
                self.inserted@ == all,
                keep == (|d: CalendarDate| !all.contains(d)),
                self.replaced@ == old(self).replaced@ + rhs.replaced@.subrange(0, j as int).filter(keep),
            decreases rhs.replaced.len() - j,
        {
            let d = rhs.replaced[j];
            let mut found = false;
            let mut k: usize = 0;
            while k < self.inserted.len()
                invariant
                    k <= self.inserted@.len(),
                    found == exists|m: int| 0 <= m < k && self.inserted@[m] == d,
                decreases self.inserted.len() - k,
            {
                if self.inserted[k] == d {
                    found = true;
                }
                k = k + 1;
            }
            proof {
                let s = rhs.replaced@.subrange(0, j as int);
                assert(rhs.replaced@.subrange(0, j + 1) =~= s.push(d));
                s.lemma_filter_push(d, keep);
            }
            if !found {
                self.replaced.push(d);
            }
            j = j + 1;
        }
        assert(rhs.replaced@.subrange(0, rhs.replaced@.len() as int) =~= rhs.replaced@);
    }
}

/// Relies on `slice::binary_search_by_key` over days in increasing date
/// order, keyed by tuples of year, month and day, which compare field by field.
#[verifier::external_body]
fn search_date(days: &Vec<Day>, date: CalendarDate) -> (r: Result<usize, usize>)
    requires
        dates_increasing(day_views(days@)),
    ensures
        match r {
            Ok(i) => i < days@.len() && days@[i as int]@.date == date,
            Err(k) => insertion_point(day_views(days@), date, k as int),
        },
{
    days.binary_search_by_key(&(date.year, date.month, date.day), |d| d.date_key())
}

/// The known days, in date order, one per date.
#[derive(Clone, Debug)]
pub struct Catalogue {
    days: Vec<Day>,
}

impl View for Catalogue {
    type V = Seq<DayView>;

    closed spec fn view(&self) -> Seq<DayView> {
        day_views(self.days@)
    }
}

proof fn lemma_insert_day(ds: Seq<DayView>, x: DayView)
    requires
        dates_increasing(ds),
        x.date.valid(),
        x.dishes.len() >= 1,
        forall|i: int| 0 <= i < ds.len() ==> (#[trigger] ds[i]).date.valid() && ds[i].dishes.len() >= 1,
    ensures
        dates_increasing(insert_day(ds, x)),
        forall|i: int| 0 <= i < insert_day(ds, x).len() ==> (#[trigger] insert_day(ds, x)[i]).date.valid()
            && insert_day(ds, x)[i].dishes.len() >= 1,
{
    if has_date(ds, x.date) {
        let i = choose|i: int| 0 <= i < ds.len() && (#[trigger] ds[i]).date == x.date;
        let r = insert_day(ds, x);
        assert forall|a: int, b: int| 0 <= a < b < r.len() implies date_lt(#[trigger] r[a].date, #[trigger] r[b].date) by {
            assert(date_lt(ds[a].date, ds[b].date));
        }
    } else {
        let k = choose|k: int| insertion_point(ds, x.date, k);
        assert(insertion_point(ds, x.date, k)) by {
            lemma_insertion_point_exists(ds, x.date);
        }
        let r = insert_day(ds, x);
        assert forall|a: int, b: int| 0 <= a < b < r.len() implies date_lt(#[trigger] r[a].date, #[trigger] r[b].date) by {
            if a < k && b < k {
                assert(date_lt(ds[a].date, ds[b].date));
            } else if a < k && b == k {
            } else if a < k {
                assert(date_lt(ds[a].date, ds[b - 1].date));
            } else if a == k {
                assert(date_lt(x.date, ds[b - 1].date));
            } else {
                assert(date_lt(ds[a - 1].date, ds[b - 1].date));
            }
        }
    }
}

proof fn lemma_insertion_point_exists(ds: Seq<DayView>, d: CalendarDate)
    requires
        dates_increasing(ds),
        !has_date(ds, d),
    ensures
        exists|k: int| insertion_point(ds, d, k),
    decreases ds.len(),
{
    if ds.len() == 0 {
        assert(insertion_point(ds, d, 0));
    } else {
        let p = ds.drop_last();
        assert(dates_increasing(p)) by {
            assert forall|i: int, j: int| 0 <= i < j < p.len() implies date_lt(#[trigger] p[i].date, #[trigger] p[j].date) by {
                assert(date_lt(ds[i].date, ds[j].date));
            }
        }
        assert(!has_date(p, d)) by {
            if has_date(p, d) {
                let i = choose|i: int| 0 <= i < p.len() && (#[trigger] p[i]).date == d;
                assert(ds[i].date == d);
            }
        }
        lemma_insertion_point_exists(p, d);
        let k = choose|k: int| insertion_point(p, d, k);
        if date_lt(ds.last().date, d) {
            assert(insertion_point(ds, d, ds.len() as int));
        } else {
            assert(ds.last().date != d) by {
                assert(ds[ds.len() - 1].date == ds.last().date);
            }
            assert(date_lt(d, ds.last().date));
            assert forall|j: int| 0 <= j < k implies date_lt((#[trigger] ds[j]).date, d) by {
                assert(p[j] == ds[j]);
            }
            assert forall|j: int| k <= j < ds.len() implies date_lt(d, (#[trigger] ds[j]).date) by {
                if j < ds.len() - 1 {
                    assert(p[j] == ds[j]);
                }
            }
            assert(insertion_point(ds, d, k));
        }
    }
}

/// Whether each search term, case aside, is found in some dish, case aside.
pub open spec fn dishes_match(dishes: Seq<Seq<char>>, terms: Seq<Seq<char>>) -> bool {
    forall|t: int| 0 <= t < terms.len() ==> term_found(dishes, lower_of(#[trigger] terms[t]))
}

/// Whether the lower-case term is found in some dish, case aside.
pub open spec fn term_found(dishes: Seq<Seq<char>>, term: Seq<char>) -> bool {
    exists|k: int| 0 <= k < dishes.len() && contains_seq(lower_of(#[trigger] dishes[k]), term)
}

/// The days of ISO week `week` whose calendar year is `year`, in order.
pub open spec fn week_days(ds: Seq<DayView>, year: i32, week: u8) -> Seq<DayView>
    decreases ds.len(),
{
    if ds.len() == 0 {
        Seq::empty()
    } else {
        let p = week_days(ds.drop_last(), year, week);
        let d = ds.last().date;
        if d.year == year && iso_week_of(d.year as int, d.month as int, d.day as int) == week {
            p.push(ds.last())
        } else {
            p
        }
    }
}

impl Catalogue {
    pub open spec fn wf(&self) -> bool {
        &&& dates_increasing(self@)
        &&& forall|i: int| 0 <= i < self@.len() ==> (#[trigger] self@[i]).date.valid() && self@[i].dishes.len() >= 1
    }

    pub fn new() -> (r: Catalogue)
        ensures
            r@ == Seq::<DayView>::empty(),
            r.wf(),
    {
        let r = Catalogue { days: Vec::new() };
        assert(r@ =~= Seq::<DayView>::empty());
        r
    }

    /// The known days, in date order.
    pub fn days(&self) -> (r: &Vec<Day>)
        ensures
            day_views(r@) == self@,
    {
        &self.days
    }

    /// Adds the days in turn: a day of a known date replaces the dishes of
    /// that date; the others are inserted at their place.
    pub fn insert(&mut self, days: Vec<Day>) -> (r: CatalogueUpdate)
        requires
            old(self).wf(),
            forall|i: int| 0 <= i < days@.len() ==> (#[trigger] days@[i]).wf(),
        ensures
            final(self).wf(),
            final(self)@ == insert_days(old(self)@, day_views(days@)),
            is_sorted_dates(new_dates(old(self)@, day_views(days@)), r.inserted@),
            is_sorted_dates(replaced_dates(old(self)@, day_views(days@)), r.replaced@),
    {
        let ghost xs = day_views(days@);
        let ghost start = self@;
        let mut inserted: Vec<CalendarDate> = Vec::new();
        let mut replaced: Vec<CalendarDate> = Vec::new();
        let mut i: usize = 0;
        let mut days = days;
        let n = days.len();
        assert(xs.subrange(0, 0) =~= Seq::<DayView>::empty());
        while i < n
            invariant
                n == days@.len(),
                i <= n,
                xs == day_views(days@),
                start == old(self)@,
                forall|k: int| 0 <= k < days@.len() ==> (#[trigger] days@[k]).wf(),
                self.wf(),
                self@ == insert_days(start, xs.subrange(0, i as int)),
                inserted@ == new_dates(start, xs.subrange(0, i as int)),
                replaced@ == replaced_dates(start, xs.subrange(0, i as int)),
                forall|k: int| 0 <= k < inserted@.len() ==> (#[trigger] inserted@[k]).valid(),
                forall|k: int| 0 <= k < replaced@.len() ==> (#[trigger] replaced@[k]).valid(),
            decreases n - i,
        {
            let ghost cur = self@;
            let ghost x = xs[i as int];
            assert(xs.subrange(0, i + 1).drop_last() =~= xs.subrange(0, i as int));
            assert(xs.subrange(0, i + 1).last() == x);
            let day = days[i].duplicate();
            let date = day.date();
            proof {
                lemma_insert_day(cur, x);
            }
            match search_date(&self.days, date) {
                Ok(at) => {
                    proof {
                        assert(cur[at as int].date == date);
                        assert(has_date(cur, date));
                        let c = choose|c: int| 0 <= c < cur.len() && (#[trigger] cur[c]).date == date;
                        if c < at {
                            assert(date_lt(cur[c].date, cur[at as int].date));
                        } else if c > at {
                            assert(date_lt(cur[at as int].date, cur[c].date));
                        }
                    }
                    replaced.push(date);
                    let mut known = self.days.remove(at);
                    known.replace_dishes(day.dishes());
                    self.days.insert(at, known);
                    assert(self@ =~= insert_day(cur, x));
                },
                Err(at) => {
                    proof {
                        assert(!has_date(cur, date)) by {
                            if has_date(cur, date) {
                                let c = choose|c: int| 0 <= c < cur.len() && (#[trigger] cur[c]).date == date;
                                if c < at {
                                    assert(date_lt(cur[c].date, date));
                                } else {
                                    assert(date_lt(date, cur[c].date));
                                }
                            }
                        }
                        let k = choose|k: int| insertion_point(cur, date, k);
                        if k < at {
                            assert(date_lt(cur[k].date, date));
                            assert(date_lt(date, cur[k].date));
                        } else if k > at {
                            assert(date_lt(cur[at as int].date, date));
                            assert(date_lt(date, cur[at as int].date));
                        }
                    }
                    inserted.push(date);
                    self.days.insert(at, day);
                    assert(self@ =~= insert_day(cur, x));
                },
            }
            i = i + 1;
        }
        assert(xs.subrange(0, n as int) =~= xs);
        let r = CatalogueUpdate { inserted: sort_dates(&inserted), replaced: sort_dates(&replaced) };
        r
    }

    /// The day of date `today`, if it is known.
    pub fn today(&self, today: CalendarDate) -> (r: Option<Day>)
        ensures
            r is Some <==> has_date(self@, today),
            r matches Some(d) ==> exists|i: int| 0 <= i < self@.len() && self@[i] == d@ && d@.date == today,
    {
        let r = self.first_from(today, false, true);
        proof {
            if has_date(self@, today) {
                let i = choose|i: int| 0 <= i < self@.len() && (#[trigger] self@[i]).date == today;
                assert(reaches(self@[i].date, today, false, true));
            }
            if r is Some {
                let i = choose|i: int| 0 <= i < self@.len() && #[trigger] reaches(self@[i].date, today, false, true);
                assert(self@[i].date == today);
            }
        }
        r
    }

    /// The first day, in date order, whose date reaches `from`.
    fn first_from(&self, from: CalendarDate, strict: bool, exact: bool) -> (r: Option<Day>)
        ensures
            r is Some <==> exists|i: int| 0 <= i < self@.len() && #[trigger] reaches(self@[i].date, from, strict, exact),
            r matches Some(d) ==> exists|i: int|
                0 <= i < self@.len() && self@[i] == d@ && reaches(self@[i].date, from, strict, exact)
                    && forall|j: int| 0 <= j < i ==> !#[trigger] reaches(self@[j].date, from, strict, exact),
    {
        let mut i: usize = 0;
        while i < self.days.len()
            invariant
                i <= self.days@.len(),
                forall|j: int| 0 <= j < i ==> !#[trigger] reaches(self@[j].date, from, strict, exact),
            decreases self.days.len() - i,
        {
            let d = self.days[i].date();
            let hit = if exact {
                d == from
            } else if strict {
                date_before(from, d)
            } else {
                !date_before(d, from)
            };
            if hit {
                assert(self@[i as int] == self.days@[i as int]@);
                assert(reaches(self@[i as int].date, from, strict, exact));
                return Some(self.days[i].duplicate());
            }
            i = i + 1;
        }
        None
    }
}

/// Whether date `d` is `from` (when `exact`), after it (when `strict`), or
/// not before it.
pub open spec fn reaches(d: CalendarDate, from: CalendarDate, strict: bool, exact: bool) -> bool {
    if exact {
        d == from
    } else if strict {
        date_lt(from, d)
    } else {
        !date_lt(d, from)
    }
}

/// Whether date `a` comes before date `b`.
pub fn date_before(a: CalendarDate, b: CalendarDate) -> (r: bool)
    ensures
        r == date_lt(a, b),
{
    a.year < b.year || (a.year == b.year && (a.month < b.month || (a.month == b.month && a.day < b.day)))
}

/// Whether the hour is 14 o'clock or later, when the day's meal is over.
pub open spec fn after_lunch(hour: u8) -> bool {
    hour >= 14
}

/// Whether each term is found in some lower-case dish.
fn day_matches(day: &Day, terms: &Vec<String>) -> (r: bool)
    ensures
        r == forall|t: int| 0 <= t < terms@.len() ==> term_found(day@.dishes, #[trigger] terms@[t]@),
{
    let dishes = day.dishes_ref();
    let mut t: usize = 0;
    while t < terms.len()
        invariant
            t <= terms@.len(),
            views(dishes@) == day@.dishes,
            forall|u: int| 0 <= u < t ==> term_found(day@.dishes, #[trigger] terms@[u]@),
        decreases terms.len() - t,
    {
        let mut found = false;
        let mut k: usize = 0;
        while k < dishes.len()
            invariant
                k <= dishes@.len(),
                t < terms@.len(),
                views(dishes@) == day@.dishes,
                found == exists|j: int| 0 <= j < k && contains_seq(lower_of(#[trigger] day@.dishes[j]), terms@[t as int]@),
            decreases dishes.len() - k,
        {
            let l = lowercase(dishes[k].as_str());
            assert(day@.dishes[k as int] == dishes@[k as int]@);
            if str_contains(l.as_str(), terms[t].as_str()) {
                found = true;
            }
            k = k + 1;
        }
        if !found {
            proof {
                if term_found(day@.dishes, terms@[t as int]@) {
                    let j = choose|j: int| 0 <= j < day@.dishes.len() && contains_seq(lower_of(#[trigger] day@.dishes[j]), terms@[t as int]@);
                }
            }
            return false;
        }
        t = t + 1;
    }
    true
}

impl Catalogue {
    /// The first day, in date order, from `today` on, or from the day after
    /// once it is 14 o'clock.
    pub fn next(&self, today: CalendarDate, hour: u8) -> (r: Option<Day>)
        ensures
            r is Some <==> exists|i: int| 0 <= i < self@.len() && #[trigger] reaches(self@[i].date, today, after_lunch(hour), false),
            r matches Some(d) ==> exists|i: int|
                0 <= i < self@.len() && self@[i] == d@ && reaches(self@[i].date, today, after_lunch(hour), false)
                    && forall|j: int| 0 <= j < i ==> !#[trigger] reaches(self@[j].date, today, after_lunch(hour), false),
    {
        let strict = hour >= 14;
        assert(strict == after_lunch(hour));
        self.first_from(today, strict, false)
    }

    /// The first day, in date order, from `today` on (or from the day after
    /// once it is 14 o'clock), each of whose search terms, case aside, is
    /// found in some dish, case aside.
    pub fn find_dish_next(&self, search: Vec<String>, today: CalendarDate, hour: u8) -> (r: Option<Day>)
        ensures
            r is Some <==> exists|i: int|
                0 <= i < self@.len() && #[trigger] reaches(self@[i].date, today, after_lunch(hour), false)
                    && dishes_match(self@[i].dishes, views(search@)),
            r matches Some(d) ==> exists|i: int|
                0 <= i < self@.len() && self@[i] == d@ && reaches(self@[i].date, today, after_lunch(hour), false)
                    && dishes_match(self@[i].dishes, views(search@))
                    && forall|j: int| 0 <= j < i ==> !(#[trigger] reaches(self@[j].date, today, after_lunch(hour), false)
                        && dishes_match(self@[j].dishes, views(search@))),
    {
        let ghost sv = views(search@);
        let mut terms: Vec<String> = Vec::new();
        let mut t: usize = 0;
        while t < search.len()
            invariant
                t <= search@.len(),
                terms@.len() == t,
                forall|u: int| 0 <= u < t ==> #[trigger] terms@[u]@ == lower_of(search@[u]@),
            decreases search.len() - t,
        {
            terms.push(lowercase(search[t].as_str()));
            t = t + 1;
        }
        let strict = hour >= 14;
        assert(strict == after_lunch(hour));
        let mut i: usize = 0;
        while i < self.days.len()
            invariant
                i <= self.days@.len(),
                terms@.len() == search@.len(),
                sv == views(search@),
                strict == after_lunch(hour),
                forall|u: int| 0 <= u < terms@.len() ==> #[trigger] terms@[u]@ == lower_of(search@[u]@),
                forall|j: int| 0 <= j < i ==> !(#[trigger] reaches(self@[j].date, today, strict, false)
                    && dishes_match(self@[j].dishes, sv)),
            decreases self.days.len() - i,
        {
            let day = &self.days[i];
            assert(self@[i as int] == day@);
            let d = day.date();
            let m = day_matches(day, &terms);
            let reached = if strict {
                date_before(today, d)
            } else {
                !date_before(d, today)
            };
            proof {
                assert(m == dishes_match(day@.dishes, sv)) by {
                    if m {
                        assert forall|u: int| 0 <= u < sv.len() implies term_found(day@.dishes, lower_of(#[trigger] sv[u])) by {
                            assert(sv[u] == search@[u]@);
                            assert(terms@[u]@ == lower_of(sv[u]));
                        }
                    } else {
                        let u = choose|u: int| 0 <= u < terms@.len() && !term_found(day@.dishes, #[trigger] terms@[u]@);
                        assert(sv[u] == search@[u]@);
                        assert(terms@[u]@ == lower_of(sv[u]));
                    }
                }
            }
            if reached && m {
                assert(reaches(self@[i as int].date, today, strict, false));
                return Some(day.duplicate());
            }
            i = i + 1;
        }
        None
    }

    /// The days of ISO week `week` whose calendar year is `year`.
    pub fn week(&self, year: i32, week: u8) -> (r: Result<Catalogue, Error>)
        requires
            self.wf(),
        ensures
            week_days(self@, year, week).len() == 0 ==> r == Err::<Catalogue, Error>(Error::WeekNotFound),
            week_days(self@, year, week).len() > 0 ==> (r matches Ok(c) && c@ == week_days(self@, year, week) && c.wf()),
    {
        let mut days: Vec<Day> = Vec::new();
        let mut i: usize = 0;
        assert(self@.subrange(0, 0) =~= Seq::<DayView>::empty());
        assert(day_views(days@) =~= Seq::<DayView>::empty());
        while i < self.days.len()
            invariant
                i <= self.days@.len(),
                self.wf(),
                day_views(days@) == week_days(self@.subrange(0, i as int), year, week),
                forall|k: int| 0 <= k < days@.len() ==> exists|j: int| 0 <= j < i && #[trigger] days@[k]@ == self@[j],
                forall|k: int, l: int| 0 <= k < l < days@.len() ==> date_lt(#[trigger] days@[k]@.date, #[trigger] days@[l]@.date),
            decreases self.days.len() - i,
        {
            assert(self@.subrange(0, i + 1).drop_last() =~= self@.subrange(0, i as int));
            let day = &self.days[i];
            assert(self@[i as int] == day@);
            let d = day.date();
            if d.year == year && iso_week(d) == week {
                let ghost before = days@;
                proof {
                    assert forall|k: int| 0 <= k < before.len() implies date_lt(#[trigger] before[k]@.date, d) by {
                        let j = choose|j: int| 0 <= j < i && before[k]@ == self@[j];
                        assert(date_lt(self@[j].date, self@[i as int].date));
                    }
                }
                days.push(day.duplicate());
                assert(day_views(days@) =~= day_views(before).push(self@[i as int]));
            }
            i = i + 1;
        }
        assert(self@.subrange(0, self@.len() as int) =~= self@);
        if days.len() == 0 {
            return Err(Error::WeekNotFound);
        }
        let c = Catalogue { days };
        proof {
            assert forall|k: int| 0 <= k < c@.len() implies (#[trigger] c@[k]).date.valid() && c@[k].dishes.len() >= 1 by {
                let j = choose|j: int| 0 <= j < i && days@[k]@ == self@[j];
            }
            assert forall|k: int, l: int| 0 <= k < l < c@.len() implies date_lt(#[trigger] c@[k].date, #[trigger] c@[l].date) by {
                assert(c@[k] == days@[k]@);
                assert(c@[l] == days@[l]@);
            }
        }
        Ok(c)
    }

    /// The day of date `date`.
    pub fn day(&self, date: CalendarDate) -> (r: Result<Day, Error>)
        ensures
            !has_date(self@, date) ==> r == Err::<Day, Error>(Error::DayNotFound),
            has_date(self@, date) ==> (r matches Ok(d) && d@.date == date && exists|i: int| 0 <= i < self@.len() && self@[i] == d@),
    {
        match self.today(date) {
            Some(d) => Ok(d),
            None => Err(Error::DayNotFound),
        }
    }
}

/// The dates written one per line.
pub open spec fn dates_lines(ds: Seq<CalendarDate>) -> Seq<char> {
    join_spec(ds.map_values(|d: CalendarDate| date_text(d)), "\n"@)
}

/// An update as text: the new dates, then the replaced ones, each list under
/// its title and left out when empty.
pub open spec fn update_text(inserted: Seq<CalendarDate>, replaced: Seq<CalendarDate>) -> Seq<char> {
    let first = if inserted.len() > 0 {
        "Inserted:\n"@ + dates_lines(inserted)
    } else {
        Seq::empty()
    };
    if replaced.len() > 0 {
        first + (if first.len() > 0 {
            "\n\n"@
        } else {
            Seq::empty()
        }) + "Replaced:\n"@ + dates_lines(replaced)
    } else {
        first
    }
}

/// The dates written one per line.
fn write_dates(ds: &Vec<CalendarDate>) -> (r: String)
    requires
        forall|k: int| 0 <= k < ds@.len() ==> (#[trigger] ds@[k]).valid(),
    ensures
        r@ == dates_lines(ds@),
{
    let mut lines: Vec<String> = Vec::new();
    let mut i: usize = 0;
    while i < ds.len()
        invariant
            i <= ds@.len(),
            forall|k: int| 0 <= k < ds@.len() ==> (#[trigger] ds@[k]).valid(),
            lines@.len() == i,
            forall|k: int| 0 <= k < i ==> #[trigger] lines@[k]@ == date_text(ds@[k]),
        decreases ds.len() - i,
    {
        lines.push(format_date(ds[i]));
        i = i + 1;
    }
    let r = join_first(&lines, ds.len(), "\n");
    assert(lines@.subrange(0, ds@.len() as int).map_values(|s: String| s@) =~= ds@.map_values(
        |d: CalendarDate| date_text(d),
    ));
    r
}

impl CatalogueUpdate {
    /// The update as text.
    pub fn as_plain_text(&self) -> (r: String)
        requires
            forall|k: int| 0 <= k < self.inserted@.len() ==> (#[trigger] self.inserted@[k]).valid(),
            forall|k: int| 0 <= k < self.replaced@.len() ==> (#[trigger] self.replaced@[k]).valid(),
        ensures
            r@ == update_text(self.inserted@, self.replaced@),
    {
        let mut text = String::new();
        if self.inserted.len() > 0 {
            text.append("Inserted:\n");
            let lines = write_dates(&self.inserted);
            text.append(lines.as_str());
        }
        if self.replaced.len() > 0 {
            if text.unicode_len() > 0 {
                text.append("\n\n");
            }
            text.append("Replaced:\n");
            let lines = write_dates(&self.replaced);
            text.append(lines.as_str());
        }
        proof {
            reveal_strlit("Inserted:\n");
            assert(self.inserted@.len() > 0 ==> ("Inserted:\n"@ + dates_lines(self.inserted@)).len() > 0);
        }
        text
    }
}

/// The catalogue as text: each day's date, then its text, days apart by an
/// empty line.
pub open spec fn catalogue_text(ds: Seq<DayView>, human: bool, today: CalendarDate) -> Seq<char> {
    join_spec(
        ds.map_values(|d: DayView| date_text(d.date) + " :\n"@ + day_text(d, human, today)),
        "\n\n"@,
    )
}

impl Catalogue {
    /// The catalogue as text, `today` being the date now.
    pub fn as_plain_text(&self, human: bool, today: CalendarDate) -> (r: String)
        requires
            self.wf(),
            today.valid(),
        ensures
            r@ == catalogue_text(self@, human, today),
    {
        let mut parts: Vec<String> = Vec::new();
        let mut i: usize = 0;
        while i < self.days.len()
            invariant
                i <= self.days@.len(),
                self.wf(),
                today.valid(),
                parts@.len() == i,
                forall|k: int|
                    0 <= k < i ==> #[trigger] parts@[k]@ == date_text(self@[k].date) + " :\n"@ + day_text(
                        self@[k],
                        human,
                        today,
                    ),
            decreases self.days.len() - i,
        {
            let day = &self.days[i];
            assert(self@[i as int] == day@);
            let mut part = format_date(day.date());
            part.append(" :\n");
            let text = day.as_plain_text(human, today);
            part.append(text.as_str());
            parts.push(part);
            i = i + 1;
        }
        let r = join_first(&parts, self.days.len(), "\n\n");
        assert(parts@.subrange(0, self@.len() as int).map_values(|s: String| s@) =~= self@.map_values(
            |d: DayView| date_text(d.date) + " :\n"@ + day_text(d, human, today),
        ));
        r
    }
}

} // verus!

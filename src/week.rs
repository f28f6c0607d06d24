//! The week that a page gives: its columns turned into days.
use vstd::prelude::*;

use crate::calendar::{today_utc, CalendarDate};
use crate::columns::{column_views, columns_of, dedup, dedup_column, build_columns};
use crate::day::{day_of_fields, views, Day, DayView};
use crate::error::Error;
use crate::fragment::{
    filter_fragments, fragment_views, is_reading_order, kept_fragments, reading_permutation,
    sort_fragments, DocumentDimensions, Fragment, FragmentView,
};
use crate::rows::{remove_repeated_rows, unrepeated};
use crate::run::{merge_runs, merged_runs, run_views, DishBuilder, RunView};
use crate::text::{trim, trim_spec};

verus! {

/// Each column without its repeated texts, those left with fewer than two
/// runs (a header and a dish) dropped.
pub open spec fn deduped_long_columns(cols: Seq<Seq<RunView>>) -> Seq<Seq<RunView>>
    decreases cols.len(),
{
    if cols.len() == 0 {
        Seq::empty()
    } else {
        let p = deduped_long_columns(cols.drop_last());
        let d = dedup(cols.last());
        if d.len() >= 2 {
            p.push(d)
        } else {
            p
        }
    }
}

/// The trimmed texts of a column's runs.
pub open spec fn column_texts(col: Seq<RunView>) -> Seq<Seq<char>> {
    col.map_values(|r: RunView| trim_spec(r.text))
}

/// The days that the columns give, in order, or the first failure.
pub open spec fn days_of_columns(cols: Seq<Seq<RunView>>, today: CalendarDate) -> Result<Seq<DayView>, Error>
    decreases cols.len(),
{
    if cols.len() == 0 {
        Ok(Seq::empty())
    } else {
        match days_of_columns(cols.drop_last(), today) {
            Err(e) => Err(e),
            Ok(ds) => match day_of_fields(column_texts(cols.last()), today) {
                Err(e) => Err(e),
                Ok(None) => Ok(ds),
                Ok(Some(d)) => Ok(ds.push(d)),
            },
        }
    }
}

/// The columns of the reconstructed table: the runs of lines that are not
/// repeated labels, grouped into columns, each without repeated texts, those
/// with fewer than two runs left out.
pub open spec fn table_columns(runs: Seq<RunView>) -> Seq<Seq<RunView>> {
    deduped_long_columns(columns_of(unrepeated(runs, runs)))
}

/// The week that fragments in reading order give, `today` being the date now.
pub open spec fn layout_days(order: Seq<FragmentView>, today: CalendarDate) -> Result<Seq<DayView>, Error> {
    let cols = table_columns(merged_runs(order));
    if cols.len() == 0 {
        Err(Error::InvalidPdf)
    } else {
        days_of_columns(cols, today)
    }
}

/// The views of a list of days.
pub open spec fn day_views(ds: Seq<Day>) -> Seq<DayView> {
    ds.map_values(|d: Day| d@)
}

/// Whether the days that were made are those of the model.
pub open spec fn days_match(r: Result<Vec<Day>, Error>, m: Result<Seq<DayView>, Error>) -> bool {
    match (r, m) {
        (Ok(ds), Ok(vs)) => day_views(ds@) == vs && forall|i: int| 0 <= i < ds@.len() ==> (#[trigger] ds@[i]).wf(),
        (Err(e), Err(f)) => e == f,
        _ => false,
    }
}

/// The trimmed texts of a column's runs.
fn texts_of(col: &Vec<DishBuilder>) -> (r: Vec<String>)
    ensures
        views(r@) == column_texts(run_views(col@)),
{
    let mut r: Vec<String> = Vec::new();
    let mut i: usize = 0;
    while i < col.len()
        invariant
            i <= col@.len(),
            r@.len() == i,
            forall|k: int| 0 <= k < i ==> #[trigger] r@[k]@ == trim_spec(col@[k].text@),
        decreases col.len() - i,
    {
        r.push(trim(col[i].text.as_str()));
        i = i + 1;
    }
    assert(views(r@) =~= column_texts(run_views(col@)));
    r
}

/// The days that the columns give, in order, or the first failure.
pub fn assemble_days(cols: &Vec<Vec<DishBuilder>>, today: CalendarDate) -> (r: Result<Vec<Day>, Error>)
    requires
        today.valid(),
    ensures
        days_match(r, days_of_columns(column_views(cols@), today)),
{
    let ghost cv = column_views(cols@);
    let mut days: Vec<Day> = Vec::new();
    assert(day_views(days@) =~= Seq::<DayView>::empty());
    assert(cv.subrange(0, 0) =~= Seq::<Seq<RunView>>::empty());
    let mut i: usize = 0;
    while i < cols.len()
        invariant
            i <= cols@.len(),
            today.valid(),
            cv == column_views(cols@),
            days_match(Ok(days), days_of_columns(cv.subrange(0, i as int), today)),
        decreases cols.len() - i,
    {
        assert(cv.subrange(0, i + 1).drop_last() =~= cv.subrange(0, i as int));
        assert(cv.subrange(0, i + 1).last() == run_views(cols@[i as int]@));
        let fields = texts_of(&cols[i]);
        let ghost before = days@;
        match Day::new_at(fields, today) {
            Err(e) => {
                proof {
                    lemma_days_err_stays(cv, i as int + 1, today);
                }
                return Err(e);
            },
            Ok(None) => {},
            Ok(Some(d)) => {
                days.push(d);
                assert(day_views(days@) =~= day_views(before).push(d@));
            },
        }
        i = i + 1;
    }
    assert(cv.subrange(0, cols@.len() as int) =~= cv);
    Ok(days)
}

/// Once a column fails, the columns that follow do not change the failure.
proof fn lemma_days_err_stays(cols: Seq<Seq<RunView>>, n: int, today: CalendarDate)
    requires
        0 <= n <= cols.len(),
        days_of_columns(cols.subrange(0, n), today) is Err,
    ensures
        days_of_columns(cols, today) == days_of_columns(cols.subrange(0, n), today),
    decreases cols.len() - n,
{
    if n < cols.len() {
        assert(cols.subrange(0, n + 1).drop_last() =~= cols.subrange(0, n));
        lemma_days_err_stays(cols, n + 1, today);
    } else {
        assert(cols.subrange(0, n) =~= cols);
    }
}

/// The week that the fragments of a page of size `dimensions` give, `today`
/// being the date now.
pub fn parse_fragments(fragments: &Vec<Fragment>, dimensions: &DocumentDimensions, today: CalendarDate) -> (r: Result<Vec<Day>, Error>)
    requires
        today.valid(),
    ensures
        exists|order: Seq<FragmentView>|
            is_reading_order(kept_fragments(fragment_views(fragments@), *dimensions), order)
                && days_match(r, layout_days(order, today)),
{
    let kept = filter_fragments(fragments, dimensions);
    let sorted = sort_fragments(&kept);
    let ghost order = fragment_views(sorted@);
    let runs = merge_runs(&sorted);
    let clean = remove_repeated_rows(&runs);
    let cols = build_columns(&clean);
    let ghost cv = column_views(cols@);
    let mut table: Vec<Vec<DishBuilder>> = Vec::new();
    let mut i: usize = 0;
    assert(column_views(table@) =~= Seq::<Seq<RunView>>::empty());
    while i < cols.len()
        invariant
            i <= cols@.len(),
            cv == column_views(cols@),
            column_views(table@) == deduped_long_columns(cv.subrange(0, i as int)),
        decreases cols.len() - i,
    {
        assert(cv.subrange(0, i + 1).drop_last() =~= cv.subrange(0, i as int));
        let d = dedup_column(&cols[i]);
        if d.len() >= 2 {
            let ghost before = table@;
            table.push(d);
            assert(column_views(table@) =~= column_views(before).push(run_views(d@)));
        }
        i = i + 1;
    }
    assert(cv.subrange(0, cols@.len() as int) =~= cv);
    if table.len() == 0 {
        return Err(Error::InvalidPdf);
    }
    assemble_days(&table, today)
}

/// The week that the fragments of a page of size `dimensions` give, the year
/// of each worded header being chosen near today's date.
pub fn parse_layout(fragments: &Vec<Fragment>, dimensions: &DocumentDimensions) -> (r: Result<Vec<Day>, Error>)
    ensures
        exists|today: CalendarDate, order: Seq<FragmentView>|
            today.valid() && is_reading_order(kept_fragments(fragment_views(fragments@), *dimensions), order)
                && days_match(r, layout_days(order, today)),
{
    let today = today_utc();
    parse_fragments(fragments, dimensions, today)
}

/// With no fragments at all, the page gives no week: the layout is refused.
pub proof fn lemma_no_fragments_unparsable(
    dimensions: DocumentDimensions,
    today: CalendarDate,
    order: Seq<FragmentView>,
)
    requires
        is_reading_order(kept_fragments(Seq::empty(), dimensions), order),
    ensures
        layout_days(order, today) == Err::<Seq<DayView>, Error>(Error::InvalidPdf),
{
    let p = choose|p: Seq<int>| reading_permutation(kept_fragments(Seq::empty(), dimensions), order, p);
    assert(order.len() == 0);
    assert(merged_runs(order).len() == 0);
    let runs = merged_runs(order);
    assert(unrepeated(runs, runs).len() == 0);
    assert(columns_of(unrepeated(runs, runs)).len() == 0);
    assert(table_columns(runs).len() == 0);
}

/// The character views of rows of strings.
pub open spec fn row_views(rows: Seq<Vec<String>>) -> Seq<Seq<Seq<char>>> {
    rows.map_values(|row: Vec<String>| views(row@))
}

/// The days that rows of fields give, in order, or the first failure.
pub open spec fn days_of_rows(rows: Seq<Seq<Seq<char>>>, today: CalendarDate) -> Result<Seq<DayView>, Error>
    decreases rows.len(),
{
    if rows.len() == 0 {
        Ok(Seq::empty())
    } else {
        match days_of_rows(rows.drop_last(), today) {
            Err(e) => Err(e),
            Ok(ds) => match day_of_fields(rows.last(), today) {
                Err(e) => Err(e),
                Ok(None) => Ok(ds),
                Ok(Some(d)) => Ok(ds.push(d)),
            },
        }
    }
}

/// Once a row fails, the rows that follow do not change the failure.
proof fn lemma_rows_err_stays(rows: Seq<Seq<Seq<char>>>, n: int, today: CalendarDate)
    requires
        0 <= n <= rows.len(),
        days_of_rows(rows.subrange(0, n), today) is Err,
    ensures
        days_of_rows(rows, today) == days_of_rows(rows.subrange(0, n), today),
    decreases rows.len() - n,
{
    if n < rows.len() {
        assert(rows.subrange(0, n + 1).drop_last() =~= rows.subrange(0, n));
        lemma_rows_err_stays(rows, n + 1, today);
    } else {
        assert(rows.subrange(0, n) =~= rows);
    }
}

/// The days that rows of fields give, each a header and its dishes.
pub fn days_from_rows(rows: Vec<Vec<String>>, today: CalendarDate) -> (r: Result<Vec<Day>, Error>)
    requires
        today.valid(),
    ensures
        days_match(r, days_of_rows(row_views(rows@), today)),
{
    let ghost rv = row_views(rows@);
    let mut days: Vec<Day> = Vec::new();
    assert(day_views(days@) =~= Seq::<DayView>::empty());
    assert(rv.subrange(0, 0) =~= Seq::<Seq<Seq<char>>>::empty());
    let mut i: usize = 0;
    while i < rows.len()
        invariant
            i <= rows@.len(),
            today.valid(),
            rv == row_views(rows@),
            days_match(Ok(days), days_of_rows(rv.subrange(0, i as int), today)),
        decreases rows.len() - i,
    {
        assert(rv.subrange(0, i + 1).drop_last() =~= rv.subrange(0, i as int));
        assert(rv.subrange(0, i + 1).last() == views(rows@[i as int]@));
        let fields = rows[i].clone();
        let ghost before = days@;
        match Day::new_at(fields, today) {
            Err(e) => {
                proof {
                    lemma_rows_err_stays(rv, i as int + 1, today);
                }
                return Err(e);
            },
            Ok(None) => {},
            Ok(Some(d)) => {
                days.push(d);
                assert(day_views(days@) =~= day_views(before).push(d@));
            },
        }
        i = i + 1;
    }
    assert(rv.subrange(0, rows@.len() as int) =~= rv);
    Ok(days)
}

/// What `serde_json` reads from the bytes as a JSON array of arrays of strings.
pub uninterp spec fn json_string_rows(b: Seq<u8>) -> Option<Seq<Seq<Seq<char>>>>;

/// Relies on `serde_json::from_slice`, read as a list of lists of strings.
#[verifier::external_body]
fn decode_rows(data: &[u8]) -> (r: Option<Vec<Vec<String>>>)
    ensures
        match r {
            Some(rows) => json_string_rows(data@) == Some(row_views(rows@)),
            None => json_string_rows(data@) is None,
        },
{
    serde_json::from_slice::<Vec<Vec<String>>>(data).ok()
}

/// The week that a JSON array of rows gives, each row a header and its
/// dishes; a row with a header alone is skipped.
pub fn parse_json(json_data: &[u8]) -> (r: Result<Vec<Day>, Error>)
    ensures
        json_string_rows(json_data@) is None ==> r == Err::<Vec<Day>, Error>(Error::InvalidJson),
        json_string_rows(json_data@) matches Some(rows) ==> exists|today: CalendarDate|
            today.valid() && days_match(r, days_of_rows(rows, today)),
{
    let rows = match decode_rows(json_data) {
        Some(rows) => rows,
        None => return Err(Error::InvalidJson),
    };
    let today = today_utc();
    days_from_rows(rows, today)
}

} // verus!

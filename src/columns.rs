//! Columns: runs grouped by the proximity of their centres, dishes written
//! on two lines joined, and repeated dishes dropped.
use vstd::prelude::*;

use itertools::Itertools;

use crate::day::views;
use crate::run::{
    abs_diff, abs_diff_u32, center_of, copy_run, run_views, run_with_line, DishBuilder, RunView,
};
use crate::text::{char_is_lowercase, is_lower, lower_of, lowercase, trim, trim_spec};

verus! {

/// How far apart, at most (excluded), two centres of one column may be.
pub const COLUMN_ALLOWED_DRIFT: u32 = 30;

/// How far below the last run of a column, at most, a continued dish may start.
pub const MULTILINE_DISH_MAX_DISTANCE: u32 = 15;

/// Whether some run of the column has its centre near the centre of `w`.
pub open spec fn near_column(col: Seq<RunView>, w: RunView) -> bool {
    exists|k: int|
        0 <= k < col.len() && abs_diff(center_of(#[trigger] col[k]), center_of(w)) < COLUMN_ALLOWED_DRIFT
}

/// The first column, from index `i` on, that is near `w`.
pub open spec fn first_near_from(cols: Seq<Seq<RunView>>, w: RunView, i: int) -> Option<int>
    decreases cols.len() - i,
{
    if i < 0 || i >= cols.len() {
        None
    } else if near_column(cols[i], w) {
        Some(i)
    } else {
        first_near_from(cols, w, i + 1)
    }
}

/// Whether `w` carries on the dish of the run `last` above it: it starts a
/// little lower, with a lower-case letter.
pub open spec fn continues_dish(last: RunView, w: RunView) -> bool {
    &&& w.top >= last.top
    &&& w.top - last.top <= MULTILINE_DISH_MAX_DISTANCE
    &&& w.text.len() > 0
    &&& is_lower(w.text[0])
}

/// The columns after one more run: it joins the first column that is near
/// it, as a new entry or as the rest of the column's last dish; with no
/// column near, it starts one.
pub open spec fn place_run(cols: Seq<Seq<RunView>>, w: RunView) -> Seq<Seq<RunView>> {
    match first_near_from(cols, w, 0) {
        Some(c) => {
            let col = cols[c];
            if col.len() > 0 && continues_dish(col.last(), w) {
                cols.update(c, col.update(col.len() - 1, run_with_line(col.last(), w)))
            } else {
                cols.update(c, col.push(w))
            }
        },
        None => cols.push(seq![w]),
    }
}

/// The columns that the runs, in order, make.
pub open spec fn columns_of(runs: Seq<RunView>) -> Seq<Seq<RunView>>
    decreases runs.len(),
{
    if runs.len() == 0 {
        Seq::empty()
    } else {
        place_run(columns_of(runs.drop_last()), runs.last())
    }
}

/// Two runs whose centres are closer than the column tolerance share a
/// column, whichever of them comes first, and a run whose centre is at least
/// that far from both starts a column of its own.
pub proof fn lemma_near_runs_share_column(a: RunView, b: RunView, c: RunView)
    requires
        abs_diff(center_of(a), center_of(b)) < COLUMN_ALLOWED_DRIFT,
        abs_diff(center_of(a), center_of(c)) >= COLUMN_ALLOWED_DRIFT,
        abs_diff(center_of(b), center_of(c)) >= COLUMN_ALLOWED_DRIFT,
        !continues_dish(a, b),
        !continues_dish(b, a),
    ensures
        columns_of(seq![a, b, c]) == seq![seq![a, b], seq![c]],
        columns_of(seq![b, a, c]) == seq![seq![b, a], seq![c]],
{
    lemma_two_then_far(a, b, c);
    lemma_two_then_far(b, a, c);
}

proof fn lemma_two_then_far(a: RunView, b: RunView, c: RunView)
    requires
        abs_diff(center_of(a), center_of(b)) < COLUMN_ALLOWED_DRIFT
            || abs_diff(center_of(b), center_of(a)) < COLUMN_ALLOWED_DRIFT,
        abs_diff(center_of(a), center_of(c)) >= COLUMN_ALLOWED_DRIFT,
        abs_diff(center_of(b), center_of(c)) >= COLUMN_ALLOWED_DRIFT,
        !continues_dish(a, b),
    ensures
        columns_of(seq![a, b, c]) == seq![seq![a, b], seq![c]],
{
    let s3 = seq![a, b, c];
    let s2 = seq![a, b];
    let s1 = seq![a];
    assert(s3.drop_last() =~= s2);
    assert(s2.drop_last() =~= s1);
    assert(s1.drop_last() =~= Seq::<RunView>::empty());
    let c0 = Seq::<Seq<RunView>>::empty();
    assert(first_near_from(c0, a, 0) is None);
    let c1 = place_run(c0, a);
    assert(c1 =~= seq![seq![a]]);
    assert(columns_of(Seq::<RunView>::empty()) == c0);
    assert(s1.last() == a);
    assert(columns_of(s1) == c1);
    assert(abs_diff(center_of(seq![a][0]), center_of(b)) < COLUMN_ALLOWED_DRIFT);
    assert(near_column(c1[0], b));
    assert(first_near_from(c1, b, 0) == Some(0int));
    assert(c1[0].last() == a);
    assert(s2.last() == b);
    let c2 = place_run(c1, b);
    assert(c1[0].push(b) =~= seq![a, b]);
    assert(c2 =~= seq![seq![a, b]]);
    assert(columns_of(s2) == c2);
    assert(!near_column(c2[0], c)) by {
        assert forall|k: int| 0 <= k < c2[0].len() implies !(abs_diff(
            center_of(#[trigger] c2[0][k]),
            center_of(c),
        ) < COLUMN_ALLOWED_DRIFT) by {
            if k == 0 {
                assert(c2[0][k] == a);
            } else {
                assert(c2[0][k] == b);
            }
        }
    }
    assert(first_near_from(c2, c, 1) is None);
    assert(first_near_from(c2, c, 0) is None);
    assert(s3.last() == c);
    let c3 = place_run(c2, c);
    assert(c3 =~= seq![seq![a, b], seq![c]]);
}

/// A run that starts a little lower than the last run of its column, with a
/// lower-case letter, joins that run as the rest of its dish; a run after it
/// that does not carry on the dish stays an entry of its own.
pub proof fn lemma_continued_dish_joins(p: RunView, w: RunView, r: RunView)
    requires
        abs_diff(center_of(p), center_of(w)) < COLUMN_ALLOWED_DRIFT,
        abs_diff(center_of(run_with_line(p, w)), center_of(r)) < COLUMN_ALLOWED_DRIFT,
        continues_dish(p, w),
        !continues_dish(run_with_line(p, w), r),
    ensures
        columns_of(seq![p, w, r]) == seq![seq![run_with_line(p, w), r]],
{
    let j = run_with_line(p, w);
    let s3 = seq![p, w, r];
    let s2 = seq![p, w];
    let s1 = seq![p];
    assert(s3.drop_last() =~= s2);
    assert(s2.drop_last() =~= s1);
    assert(s1.drop_last() =~= Seq::<RunView>::empty());
    let c0 = Seq::<Seq<RunView>>::empty();
    assert(first_near_from(c0, p, 0) is None);
    let c1 = place_run(c0, p);
    assert(c1 =~= seq![seq![p]]);
    assert(columns_of(Seq::<RunView>::empty()) == c0);
    assert(s1.last() == p);
    assert(columns_of(s1) == c1);
    assert(abs_diff(center_of(seq![p][0]), center_of(w)) < COLUMN_ALLOWED_DRIFT);
    assert(near_column(c1[0], w));
    assert(first_near_from(c1, w, 0) == Some(0int));
    assert(c1[0].last() == p);
    assert(s2.last() == w);
    let c2 = place_run(c1, w);
    assert(c1[0].update(0, j) =~= seq![j]);
    assert(c2 =~= seq![seq![j]]);
    assert(columns_of(s2) == c2);
    assert(abs_diff(center_of(c2[0][0]), center_of(r)) < COLUMN_ALLOWED_DRIFT);
    assert(near_column(c2[0], r));
    assert(first_near_from(c2, r, 0) == Some(0int));
    assert(s3.last() == r);
    assert(c2[0].last() == j);
    let c3 = place_run(c2, r);
    assert(c2[0].push(r) =~= seq![j, r]);
    assert(c3 =~= seq![seq![j, r]]);
}

/// The views of a list of columns.
pub open spec fn column_views(cols: Seq<Vec<DishBuilder>>) -> Seq<Seq<RunView>> {
    cols.map_values(|c: Vec<DishBuilder>| run_views(c@))
}

/// Whether some run of the column has its centre near the centre of `w`.
fn is_near_column(col: &Vec<DishBuilder>, w: &DishBuilder) -> (r: bool)
    ensures
        r == near_column(run_views(col@), w@),
{
    let c = w.center();
    let mut k: usize = 0;
    while k < col.len()
        invariant
            k <= col@.len(),
            c == center_of(w@),
            forall|j: int| 0 <= j < k ==> !(abs_diff(center_of(#[trigger] run_views(col@)[j]), c) < COLUMN_ALLOWED_DRIFT),
        decreases col.len() - k,
    {
        if abs_diff_u32(col[k].center(), c) < COLUMN_ALLOWED_DRIFT {
            assert(run_views(col@)[k as int] == col@[k as int]@);
            return true;
        }
        k = k + 1;
    }
    false
}

/// Whether the text starts with a lower-case letter.
fn starts_lower(s: &str) -> (r: bool)
    ensures
        r == (s@.len() > 0 && is_lower(s@[0])),
{
    s.unicode_len() > 0 && char_is_lowercase(s.get_char(0))
}

/// Adds a run to the columns.
fn place(cols: &mut Vec<Vec<DishBuilder>>, w: DishBuilder)
    ensures
        column_views(final(cols)@) == place_run(column_views(old(cols)@), w@),
{
    let ghost cv = column_views(cols@);
    let mut i: usize = 0;
    while i < cols.len()
        invariant
            cv == column_views(cols@),
            cols@ == old(cols)@,
            i <= cols@.len(),
            first_near_from(cv, w@, 0) == first_near_from(cv, w@, i as int),
        decreases cols.len() - i,
    {
        if is_near_column(&cols[i], &w) {
            let mut col = cols.remove(i);
            let ghost cview = run_views(col@);
            assert(cview == cv[i as int]);
            let n = col.len();
            if n > 0 && w.top >= col[n - 1].top && w.top - col[n - 1].top <= MULTILINE_DISH_MAX_DISTANCE
                && starts_lower(w.text.as_str()) {
                let mut last = col.pop().unwrap();
                last.add_line(&w);
                col.push(last);
                assert(run_views(col@) =~= cview.update(n - 1, run_with_line(cview.last(), w@)));
            } else {
                col.push(w);
                assert(run_views(col@) =~= cview.push(w@));
            }
            cols.insert(i, col);
            assert(column_views(cols@) =~= place_run(cv, w@));
            return;
        }
        i = i + 1;
    }
    let ghost wv = w@;
    let mut single: Vec<DishBuilder> = Vec::new();
    single.push(w);
    assert(run_views(single@) =~= seq![wv]);
    cols.push(single);
    assert(column_views(cols@) =~= cv.push(seq![wv]));
}

/// Groups the runs, in order, into columns.
pub fn build_columns(runs: &Vec<DishBuilder>) -> (r: Vec<Vec<DishBuilder>>)
    ensures
        column_views(r@) == columns_of(run_views(runs@)),
{
    let mut cols: Vec<Vec<DishBuilder>> = Vec::new();
    let mut i: usize = 0;
    while i < runs.len()
        invariant
            i <= runs@.len(),
            column_views(cols@) == columns_of(run_views(runs@).subrange(0, i as int)),
        decreases runs.len() - i,
    {
        assert(run_views(runs@).subrange(0, i + 1).drop_last() =~= run_views(runs@).subrange(0, i as int));
        place(&mut cols, copy_run(&runs[i]));
        i = i + 1;
    }
    assert(run_views(runs@).subrange(0, runs@.len() as int) =~= run_views(runs@));
    cols
}

/// The indices of the keys that did not occur before, in order.
pub open spec fn first_indices(keys: Seq<Seq<char>>) -> Seq<int>
    decreases keys.len(),
{
    if keys.len() == 0 {
        Seq::empty()
    } else {
        let p = first_indices(keys.drop_last());
        if exists|j: int| 0 <= j < keys.len() - 1 && keys[j] == keys.last() {
            p
        } else {
            p.push(keys.len() - 1)
        }
    }
}

proof fn lemma_first_indices_in_range(keys: Seq<Seq<char>>)
    ensures
        forall|k: int|
            0 <= k < first_indices(keys).len() ==> 0 <= #[trigger] first_indices(keys)[k] < keys.len(),
    decreases keys.len(),
{
    if keys.len() > 0 {
        lemma_first_indices_in_range(keys.drop_last());
        let p = first_indices(keys.drop_last());
        assert(forall|k: int| 0 <= k < p.len() ==> 0 <= #[trigger] p[k] < keys.len() - 1);
        if !exists|j: int| 0 <= j < keys.len() - 1 && keys[j] == keys.last() {
            assert(first_indices(keys) == p.push(keys.len() - 1));
        }
    }
}

/// The lower-case trimmed texts of a column's runs.
pub open spec fn lower_keys(col: Seq<RunView>) -> Seq<Seq<char>> {
    col.map_values(|r: RunView| lower_of(trim_spec(r.text)))
}

/// The column without the runs whose trimmed text, case aside, occurred
/// before in it.
pub open spec fn dedup(col: Seq<RunView>) -> Seq<RunView> {
    first_indices(lower_keys(col)).map_values(|i: int| col[i])
}

/// Of two runs of a column whose trimmed texts are equal case aside, only the
/// first is kept, with its own text.
pub proof fn lemma_first_of_equal_kept(x: RunView, y: RunView)
    requires
        lower_of(trim_spec(x.text)) == lower_of(trim_spec(y.text)),
    ensures
        dedup(seq![x, y]) == seq![x],
{
    let col = seq![x, y];
    let k = lower_of(trim_spec(x.text));
    let keys = lower_keys(col);
    assert(keys =~= seq![k, k]);
    assert(keys.drop_last() =~= seq![k]);
    assert(seq![k].drop_last() =~= Seq::<Seq<char>>::empty());
    assert(first_indices(Seq::<Seq<char>>::empty()) == Seq::<int>::empty());
    assert(seq![k].last() == k);
    assert(!exists|j: int| 0 <= j < seq![k].len() - 1 && seq![k][j] == seq![k].last());
    assert(Seq::<int>::empty().push(0) =~= seq![0int]);
    assert(first_indices(seq![k]) =~= seq![0int]);
    assert(keys[0] == keys.last());
    assert(first_indices(keys) =~= seq![0int]);
    assert(dedup(col) =~= seq![x]);
}

/// Relies on `itertools::Itertools::unique_by`: the items whose key did not
/// occur before, in order.
#[verifier::external_body]
fn first_of_each(keys: &Vec<String>) -> (r: Vec<usize>)
    ensures
        r@.len() == first_indices(views(keys@)).len(),
        forall|k: int| 0 <= k < r@.len() ==> r@[k] as int == #[trigger] first_indices(views(keys@))[k],
{
    keys.iter().enumerate().unique_by(|p| p.1).map(|p| p.0).collect()
}

/// The column without the runs whose trimmed text, case aside, occurred
/// before in it.
pub fn dedup_column(col: &Vec<DishBuilder>) -> (r: Vec<DishBuilder>)
    ensures
        run_views(r@) == dedup(run_views(col@)),
{
    let ghost cv = run_views(col@);
    let mut keys: Vec<String> = Vec::new();
    let mut i: usize = 0;
    while i < col.len()
        invariant
            i <= col@.len(),
            cv == run_views(col@),
            keys@.len() == i,
            forall|k: int| 0 <= k < i ==> #[trigger] keys@[k]@ == lower_of(trim_spec(cv[k].text)),
        decreases col.len() - i,
    {
        let t = trim(col[i].text.as_str());
        keys.push(lowercase(t.as_str()));
        i = i + 1;
    }
    assert(views(keys@) =~= lower_keys(cv));
    let firsts = first_of_each(&keys);
    proof {
        lemma_first_indices_in_range(lower_keys(cv));
    }
    let ghost fi = first_indices(lower_keys(cv));
    let mut r: Vec<DishBuilder> = Vec::new();
    let mut j: usize = 0;
    while j < firsts.len()
        invariant
            j <= firsts@.len(),
            cv == run_views(col@),
            fi == first_indices(lower_keys(cv)),
            firsts@.len() == fi.len(),
            forall|k: int| 0 <= k < firsts@.len() ==> firsts@[k] as int == #[trigger] fi[k],
            forall|k: int| 0 <= k < fi.len() ==> 0 <= #[trigger] fi[k] < cv.len(),
            r@.len() == j,
            forall|k: int| 0 <= k < j ==> #[trigger] r@[k]@ == cv[fi[k]],
        decreases firsts.len() - j,
    {
        let idx = firsts[j];
        assert(fi[j as int] == idx as int);
        r.push(copy_run(&col[idx]));
        j = j + 1;
    }
    assert(run_views(r@) =~= dedup(cv));
    r
}

} // verus!

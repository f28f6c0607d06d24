//! Lines that repeat one label across the columns, and their removal.
use vstd::prelude::*;

use itertools::Itertools;

use crate::day::views;
use crate::run::{copy_run, run_views, DishBuilder, RunView};
use crate::text::{lower_of, lowercase};

verus! {

/// The lower-case texts of the runs on line `top`, in order.
pub open spec fn row_keys(runs: Seq<RunView>, top: u32) -> Seq<Seq<char>>
    decreases runs.len(),
{
    if runs.len() == 0 {
        Seq::empty()
    } else {
        let p = row_keys(runs.drop_last(), top);
        if runs.last().top == top {
            p.push(lower_of(runs.last().text))
        } else {
            p
        }
    }
}

/// How many times `k` occurs in `keys`.
pub open spec fn count_of(keys: Seq<Seq<char>>, k: Seq<char>) -> nat
    decreases keys.len(),
{
    if keys.len() == 0 {
        0
    } else {
        count_of(keys.drop_last(), k) + if keys.last() == k {
            1nat
        } else {
            0nat
        }
    }
}

/// How many runs of a line of `n` runs must share a text for the line to be
/// a repeated label: all but one, and at least two.
pub open spec fn repeat_threshold(n: nat) -> nat {
    if n >= 3 {
        (n - 1) as nat
    } else {
        2
    }
}

/// Whether line `top` is a repeated label: enough of its runs share one text,
/// case aside.
pub open spec fn row_is_repeated(runs: Seq<RunView>, top: u32) -> bool {
    let keys = row_keys(runs, top);
    exists|i: int| 0 <= i < keys.len() && count_of(keys, #[trigger] keys[i]) >= repeat_threshold(keys.len())
}

/// The runs of `s` whose line, among the runs `all`, is not a repeated label.
pub open spec fn unrepeated(all: Seq<RunView>, s: Seq<RunView>) -> Seq<RunView>
    decreases s.len(),
{
    if s.len() == 0 {
        Seq::empty()
    } else {
        let p = unrepeated(all, s.drop_last());
        if row_is_repeated(all, s.last().top) {
            p
        } else {
            p.push(s.last())
        }
    }
}

/// A line that is a repeated label loses all its runs, those whose text
/// differs from the label's included.
pub proof fn lemma_repeated_row_dropped(all: Seq<RunView>, s: Seq<RunView>, top: u32)
    requires
        row_is_repeated(all, top),
    ensures
        forall|k: int| 0 <= k < unrepeated(all, s).len() ==> (#[trigger] unrepeated(all, s)[k]).top != top,
    decreases s.len(),
{
    if s.len() > 0 {
        lemma_repeated_row_dropped(all, s.drop_last(), top);
        let p = unrepeated(all, s.drop_last());
        let r = unrepeated(all, s);
        if !row_is_repeated(all, s.last().top) {
            assert(s.last().top != top);
            assert(r == p.push(s.last()));
            assert forall|k: int| 0 <= k < r.len() implies (#[trigger] r[k]).top != top by {
                if k < p.len() {
                    assert(r[k] == p[k]);
                }
            }
        }
    }
}

/// A line of five runs, four of which share one text case aside, is a
/// repeated label, and none of its runs is kept, the fifth included.
pub proof fn lemma_four_of_five_dropped(runs: Seq<RunView>, top: u32, i: int)
    requires
        row_keys(runs, top).len() == 5,
        0 <= i < 5,
        count_of(row_keys(runs, top), row_keys(runs, top)[i]) >= 4,
    ensures
        row_is_repeated(runs, top),
        forall|k: int|
            0 <= k < unrepeated(runs, runs).len() ==> (#[trigger] unrepeated(runs, runs)[k]).top != top,
{
    let keys = row_keys(runs, top);
    assert(repeat_threshold(keys.len()) == 4);
    assert(count_of(keys, keys[i]) >= repeat_threshold(keys.len()));
    lemma_repeated_row_dropped(runs, runs, top);
}

/// Whether `c` is how many times some key of `keys` occurs in them.
pub open spec fn is_some_count(c: usize, keys: Seq<Seq<char>>) -> bool {
    exists|j: int| 0 <= j < keys.len() && c == count_of(keys, keys[j])
}

/// Whether how many times `keys[j]` occurs in `keys` is among the counts.
pub open spec fn count_listed(counts: Seq<usize>, keys: Seq<Seq<char>>, j: int) -> bool {
    exists|i: int| 0 <= i < counts.len() && counts[i] == count_of(keys, keys[j])
}

/// Relies on `itertools::Itertools::counts`: for each distinct key, how many
/// times it occurs, in no particular order.
#[verifier::external_body]
fn key_counts(keys: &Vec<String>) -> (r: Vec<usize>)
    ensures
        forall|i: int| 0 <= i < r@.len() ==> is_some_count(#[trigger] r@[i], views(keys@)),
        forall|j: int| 0 <= j < keys@.len() ==> #[trigger] count_listed(r@, views(keys@), j),
{
    keys.iter().counts().into_values().collect()
}

/// The lower-case texts of the runs on line `top`.
fn row_texts(runs: &Vec<DishBuilder>, top: u32) -> (r: Vec<String>)
    ensures
        views(r@) == row_keys(run_views(runs@), top),
{
    let mut r: Vec<String> = Vec::new();
    let mut i: usize = 0;
    while i < runs.len()
        invariant
            i <= runs@.len(),
            views(r@) == row_keys(run_views(runs@).subrange(0, i as int), top),
        decreases runs.len() - i,
    {
        let ghost before = r@;
        assert(run_views(runs@).subrange(0, i + 1).drop_last() =~= run_views(runs@).subrange(0, i as int));
        if runs[i].top == top {
            let k = lowercase(runs[i].text.as_str());
            r.push(k);
            assert(views(r@) =~= views(before).push(lower_of(runs@[i as int].text@)));
        } else {
            assert(views(r@) =~= views(before));
        }
        i = i + 1;
    }
    assert(run_views(runs@).subrange(0, runs@.len() as int) =~= run_views(runs@));
    r
}

/// Whether line `top` of the runs is a repeated label.
pub fn is_repeated_row(runs: &Vec<DishBuilder>, top: u32) -> (r: bool)
    ensures
        r == row_is_repeated(run_views(runs@), top),
{
    let keys = row_texts(runs, top);
    let ghost kv = views(keys@);
    let n = keys.len();
    let threshold: usize = if n >= 3 {
        n - 1
    } else {
        2
    };
    let counts = key_counts(&keys);
    let mut i: usize = 0;
    while i < counts.len()
        invariant
            i <= counts@.len(),
            kv == views(keys@),
            kv == row_keys(run_views(runs@), top),
            threshold == repeat_threshold(kv.len()),
            forall|k: int| 0 <= k < i ==> counts@[k] < threshold,
            forall|i: int| 0 <= i < counts@.len() ==> is_some_count(#[trigger] counts@[i], kv),
        decreases counts.len() - i,
    {
        if counts[i] >= threshold {
            proof {
                assert(is_some_count(counts@[i as int], kv));
                let j = choose|j: int| 0 <= j < kv.len() && counts@[i as int] == count_of(kv, kv[j]);
                assert(count_of(kv, kv[j]) >= repeat_threshold(kv.len()));
            }
            return true;
        }
        i = i + 1;
    }
    proof {
        assert forall|j: int| 0 <= j < kv.len() implies !(count_of(kv, #[trigger] kv[j]) >= repeat_threshold(kv.len())) by {
            assert(count_listed(counts@, kv, j));
            let i = choose|i: int| 0 <= i < counts@.len() && counts@[i] == count_of(kv, kv[j]);
            assert(counts@[i] < threshold);
        }
    }
    false
}

/// The runs without the lines that are repeated labels.
pub fn remove_repeated_rows(runs: &Vec<DishBuilder>) -> (r: Vec<DishBuilder>)
    ensures
        run_views(r@) == unrepeated(run_views(runs@), run_views(runs@)),
{
    let ghost all = run_views(runs@);
    let mut r: Vec<DishBuilder> = Vec::new();
    let mut i: usize = 0;
    while i < runs.len()
        invariant
            i <= runs@.len(),
            all == run_views(runs@),
            run_views(r@) == unrepeated(all, all.subrange(0, i as int)),
        decreases runs.len() - i,
    {
        let ghost before = r@;
        assert(all.subrange(0, i + 1).drop_last() =~= all.subrange(0, i as int));
        if !is_repeated_row(runs, runs[i].top) {
            r.push(copy_run(&runs[i]));
            assert(run_views(r@) =~= run_views(before).push(all[i as int]));
        }
        i = i + 1;
    }
    assert(all.subrange(0, runs@.len() as int) =~= all);
    r
}

} // verus!

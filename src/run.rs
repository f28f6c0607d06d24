//! Runs: fragments of one line merged into one piece of text.
use vstd::prelude::*;

use crate::fragment::{fragment_views, Fragment, FragmentView};
use crate::text::{
    ends_with, ends_with_char, starts_with, starts_with_char, trim, trim_end_spaces,
    trim_end_spaces_spec, trim_spec, trim_start, trim_start_spec,
};

verus! {

/// The width given to each character when the end of a run is estimated.
pub const EXPECTED_CHAR_WIDTH: u32 = 4;

/// How far apart, at most (excluded), the end of a run and the next fragment
/// of its line may be for the fragment to join the run.
pub const WORD_ALLOWED_DRIFT: u32 = 12;

/// A run: one or more fragments of a line read as one piece of text.
#[derive(Clone, Debug)]
pub struct DishBuilder {
    pub top: u32,
    pub start: u32,
    pub end: u32,
    pub text: String,
}

/// What a run holds: its line, its horizontal extent and its text.
pub ghost struct RunView {
    pub top: u32,
    pub start: u32,
    pub end: u32,
    pub text: Seq<char>,
}

impl View for DishBuilder {
    type V = RunView;

    open spec fn view(&self) -> RunView {
        RunView { top: self.top, start: self.start, end: self.end, text: self.text@ }
    }
}

/// The distance between two coordinates.
pub open spec fn abs_diff(a: u32, b: u32) -> u32 {
    if a >= b {
        (a - b) as u32
    } else {
        (b - a) as u32
    }
}

/// Where a text of `n` characters that starts at `left` is estimated to end,
/// held at the largest coordinate.
pub open spec fn estimated_end(left: u32, n: nat) -> u32 {
    if left + n * EXPECTED_CHAR_WIDTH > u32::MAX {
        u32::MAX
    } else {
        (left + n * EXPECTED_CHAR_WIDTH) as u32
    }
}

/// The middle of a run; a run whose end stands before its start is read as
/// starting and ending at its start.
pub open spec fn center_of(r: RunView) -> u32 {
    if r.end >= r.start {
        (r.start + (r.end - r.start) / 2) as u32
    } else {
        r.start
    }
}

/// The text `cur` with `t` appended: after a space, `t` loses its leading
/// white space; otherwise a `t` that ends with two spaces loses its trailing
/// spaces.
pub open spec fn absorb_spec(cur: Seq<char>, t: Seq<char>) -> Seq<char> {
    if ends_with_char(cur, ' ') {
        cur + trim_start_spec(t)
    } else if t.len() >= 2 && t.last() == ' ' && t[t.len() - 2] == ' ' {
        cur + trim_end_spaces_spec(t)
    } else {
        cur + t
    }
}

/// The run that a fragment starts.
pub open spec fn run_of_fragment(f: FragmentView) -> RunView {
    RunView {
        top: f.top,
        start: f.left,
        end: estimated_end(f.left, trim_start_spec(f.text).len()),
        text: trim_start_spec(f.text),
    }
}

/// A run with a fragment of its line appended.
pub open spec fn run_with_fragment(r: RunView, f: FragmentView) -> RunView {
    RunView { text: absorb_spec(r.text, f.text), end: estimated_end(f.left, f.text.len()), ..r }
}

/// A run with the run of the line below appended, as one dish on two lines.
pub open spec fn run_with_line(r: RunView, o: RunView) -> RunView {
    let cur = if !ends_with_char(r.text, ' ') && !starts_with_char(o.text, ' ') {
        r.text.push(' ')
    } else {
        r.text
    };
    RunView {
        top: r.top,
        start: if r.start <= o.start {
            r.start
        } else {
            o.start
        },
        end: if r.end >= o.end {
            r.end
        } else {
            o.end
        },
        text: absorb_spec(cur, o.text),
    }
}

/// A run with its text trimmed.
pub open spec fn trimmed(r: RunView) -> RunView {
    RunView { text: trim_spec(r.text), ..r }
}

fn end_estimate(left: u32, n: usize) -> (r: u32)
    ensures
        r == estimated_end(left, n as nat),
{
    if n > 0x4000_0000 {
        u32::MAX
    } else {
        let w: u64 = left as u64 + n as u64 * 4;
        if w > u32::MAX as u64 {
            u32::MAX
        } else {
            w as u32
        }
    }
}

impl DishBuilder {
    /// The middle of the run.
    pub fn center(&self) -> (r: u32)
        ensures
            r == center_of(self@),
    {
        if self.end >= self.start {
            self.start + (self.end - self.start) / 2
        } else {
            self.start
        }
    }

    /// Removes the white space at both ends of the text.
    pub fn trim(&mut self)
        ensures
            final(self)@ == trimmed(old(self)@),
    {
        self.text = trim(self.text.as_str());
    }

    /// Appends `text` to the run's text.
    pub fn absorb_text(&mut self, text: &str)
        ensures
            final(self)@ == (RunView { text: absorb_spec(old(self)@.text, text@), ..old(self)@ }),
    {
        let n = text.unicode_len();
        if ends_with(self.text.as_str(), ' ') {
            let t = trim_start(text);
            self.text.append(t.as_str());
        } else if n >= 2 && text.get_char(n - 1) == ' ' && text.get_char(n - 2) == ' ' {
            let t = trim_end_spaces(text);
            self.text.append(t.as_str());
        } else {
            self.text.append(text);
        }
    }

    /// The run that a fragment starts.
    pub fn from_fragment(f: &Fragment) -> (r: DishBuilder)
        ensures
            r@ == run_of_fragment(f@),
    {
        let text = trim_start(f.text.as_str());
        let n = text.unicode_len();
        DishBuilder { top: f.top, start: f.left, end: end_estimate(f.left, n), text }
    }

    /// Appends a fragment of the same line.
    pub fn add_fragment(&mut self, f: &Fragment)
        ensures
            final(self)@ == run_with_fragment(old(self)@, f@),
    {
        self.absorb_text(f.text.as_str());
        self.end = end_estimate(f.left, f.text.unicode_len());
    }

    /// Appends the run of the line below, as the rest of the same dish.
    pub fn add_line(&mut self, o: &DishBuilder)
        ensures
            final(self)@ == run_with_line(old(self)@, o@),
    {
        if !ends_with(self.text.as_str(), ' ') && !starts_with(o.text.as_str(), ' ') {
            proof {
                reveal_strlit(" ");
            }
            self.text.append(" ");
            assert(self.text@ =~= old(self).text@.push(' '));
        }
        self.absorb_text(o.text.as_str());
        if o.start < self.start {
            self.start = o.start;
        }
        if o.end > self.end {
            self.end = o.end;
        }
    }
}

/// The views of a list of runs.
pub open spec fn run_views(s: Seq<DishBuilder>) -> Seq<RunView> {
    s.map_values(|d: DishBuilder| d@)
}

/// A copy of a run.
pub fn copy_run(d: &DishBuilder) -> (r: DishBuilder)
    ensures
        r@ == d@,
{
    DishBuilder { top: d.top, start: d.start, end: d.end, text: d.text.clone() }
}


/// Whether fragment `f` continues the run `r` on its line.
pub open spec fn continues_run(r: RunView, f: FragmentView) -> bool {
    r.top == f.top && abs_diff(r.end, f.left) < WORD_ALLOWED_DRIFT
}

/// The runs after one more fragment: it joins the last run if it continues
/// it; otherwise the last run is trimmed and the fragment starts a new one.
pub open spec fn merge_step(runs: Seq<RunView>, f: FragmentView) -> Seq<RunView> {
    if runs.len() == 0 {
        seq![run_of_fragment(f)]
    } else if continues_run(runs.last(), f) {
        runs.update(runs.len() - 1, run_with_fragment(runs.last(), f))
    } else {
        runs.update(runs.len() - 1, trimmed(runs.last())).push(run_of_fragment(f))
    }
}

/// The runs after all the fragments, the last one not yet trimmed.
pub open spec fn merge_all(fs: Seq<FragmentView>) -> Seq<RunView>
    decreases fs.len(),
{
    if fs.len() == 0 {
        Seq::empty()
    } else {
        merge_step(merge_all(fs.drop_last()), fs.last())
    }
}

/// The runs that the fragments, in reading order, make.
pub open spec fn merged_runs(fs: Seq<FragmentView>) -> Seq<RunView> {
    let r = merge_all(fs);
    if r.len() == 0 {
        r
    } else {
        r.update(r.len() - 1, trimmed(r.last()))
    }
}

pub(crate) fn abs_diff_u32(a: u32, b: u32) -> (r: u32)
    ensures
        r == abs_diff(a, b),
{
    if a >= b {
        a - b
    } else {
        b - a
    }
}

/// Merges the fragments, in reading order, into runs.
pub fn merge_runs(fragments: &Vec<Fragment>) -> (r: Vec<DishBuilder>)
    ensures
        run_views(r@) == merged_runs(fragment_views(fragments@)),
{
    let mut words: Vec<DishBuilder> = Vec::new();
    let mut i: usize = 0;
    while i < fragments.len()
        invariant
            i <= fragments@.len(),
            run_views(words@) == merge_all(fragment_views(fragments@).subrange(0, i as int)),
        decreases fragments.len() - i,
    {
        let ghost before = run_views(words@);
        let ghost fs = fragment_views(fragments@).subrange(0, i + 1);
        assert(fs.drop_last() =~= fragment_views(fragments@).subrange(0, i as int));
        let f = &fragments[i];
        if words.len() == 0 {
            words.push(DishBuilder::from_fragment(f));
            assert(run_views(words@) =~= merge_step(before, f@));
        } else {
            let mut last = words.pop().unwrap();
            assert(run_views(words@) =~= before.drop_last());
            if last.top == f.top && abs_diff_u32(last.end, f.left) < WORD_ALLOWED_DRIFT {
                last.add_fragment(f);
                words.push(last);
                assert(run_views(words@) =~= merge_step(before, f@));
            } else {
                last.trim();
                words.push(last);
                words.push(DishBuilder::from_fragment(f));
                assert(run_views(words@) =~= merge_step(before, f@));
            }
        }
        i = i + 1;
    }
    assert(fragment_views(fragments@).subrange(0, fragments@.len() as int) =~= fragment_views(fragments@));
    let ghost all = run_views(words@);
    if words.len() > 0 {
        let mut last = words.pop().unwrap();
        last.trim();
        words.push(last);
        assert(run_views(words@) =~= all.update(all.len() - 1, trimmed(all.last())));
    }
    words
}

} // verus!

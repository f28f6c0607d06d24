//! The fragments of text that the renderer placed on the page, the ones that
//! the layout keeps, and the order in which they are read.
use vstd::prelude::*;

verus! {

/// The first line of the vertical band that holds the menu.
pub const MAIN_CONTENT_TOP: u32 = 120;

/// The line after the last one of the vertical band that holds the menu.
pub const MAIN_CONTENT_BOTTOM: u32 = 525;

/// A piece of text that the renderer placed on the page.
#[derive(Clone, Debug)]
pub struct Fragment {
    pub top: u32,
    pub left: u32,
    pub text: String,
    /// Whether the fragment is written in red ink, kept for annotations.
    pub red: bool,
}

/// What a fragment holds.
pub ghost struct FragmentView {
    pub top: u32,
    pub left: u32,
    pub text: Seq<char>,
    pub red: bool,
}

impl View for Fragment {
    type V = FragmentView;

    open spec fn view(&self) -> FragmentView {
        FragmentView { top: self.top, left: self.left, text: self.text@, red: self.red }
    }
}

/// The size of the page's box.
#[derive(Clone, Copy, Debug, PartialEq, Eq, Structural)]
pub struct DocumentDimensions {
    pub width: u32,
    pub height: u32,
}

/// The bands, each from its first line to the line after its last, that hold
/// the category labels of a page of the given size; a page of unknown size is
/// read as the first known one.
pub open spec fn category_bands(width: u32, height: u32) -> Seq<(u32, u32)> {
    if width == 841 && height == 595 {
        seq![(139u32, 169u32), (197, 227), (293, 323), (370, 400), (408, 438)]
    } else {
        seq![(136u32, 166u32), (196, 226), (296, 326), (376, 406), (416, 446)]
    }
}

impl DocumentDimensions {
    /// The bands of category labels on a page of this size.
    pub fn categories_area(&self) -> (r: Vec<(u32, u32)>)
        ensures
            r@ == category_bands(self.width, self.height),
    {
        let r = if self.width == 841 && self.height == 595 {
            vec![(139u32, 169u32), (197, 227), (293, 323), (370, 400), (408, 438)]
        } else {
            vec![(136u32, 166u32), (196, 226), (296, 326), (376, 406), (416, 446)]
        };
        assert(r@ =~= category_bands(self.width, self.height));
        r
    }
}

/// The views of a list of fragments.
pub open spec fn fragment_views(s: Seq<Fragment>) -> Seq<FragmentView> {
    s.map_values(|f: Fragment| f@)
}

/// Whether `top` lies in one of the bands.
pub open spec fn in_bands(top: u32, bands: Seq<(u32, u32)>) -> bool {
    exists|i: int| 0 <= i < bands.len() && bands[i].0 <= top < #[trigger] bands[i].1
}

/// Whether a fragment is kept for the layout: not red, in the main band, and
/// out of the bands of category labels.
pub open spec fn keeps_fragment(f: FragmentView, d: DocumentDimensions) -> bool {
    &&& !f.red
    &&& MAIN_CONTENT_TOP <= f.top < MAIN_CONTENT_BOTTOM
    &&& !in_bands(f.top, category_bands(d.width, d.height))
}

/// The fragments that are kept, in their order.
pub open spec fn kept_fragments(fs: Seq<FragmentView>, d: DocumentDimensions) -> Seq<FragmentView>
    decreases fs.len(),
{
    if fs.len() == 0 {
        Seq::empty()
    } else {
        let p = kept_fragments(fs.drop_last(), d);
        if keeps_fragment(fs.last(), d) {
            p.push(fs.last())
        } else {
            p
        }
    }
}

/// Whether fragment `a`, at index `i`, is read before fragment `b`, at index
/// `j`: by line, then from left to right, then in the order given.
pub open spec fn read_before(a: FragmentView, i: int, b: FragmentView, j: int) -> bool {
    a.top < b.top || (a.top == b.top && (a.left < b.left || (a.left == b.left && i < j)))
}

/// Whether `order` holds the fragments `fs` sorted by line and then from left
/// to right, fragments at the same place keeping their order.
pub open spec fn is_reading_order(fs: Seq<FragmentView>, order: Seq<FragmentView>) -> bool {
    exists|p: Seq<int>| reading_permutation(fs, order, p)
}

/// Whether `order[k]` is `fs[p[k]]` for each `k`, the fragments being read in
/// that order.
pub open spec fn reading_permutation(fs: Seq<FragmentView>, order: Seq<FragmentView>, p: Seq<int>) -> bool {
    &&& p.len() == fs.len()
    &&& order.len() == fs.len()
    &&& forall|k: int| 0 <= k < p.len() ==> 0 <= #[trigger] p[k] < fs.len()
    &&& forall|k: int| 0 <= k < p.len() ==> order[k] == fs[#[trigger] p[k]]
    &&& forall|k: int, l: int|
        0 <= k < l < p.len() ==> read_before(fs[p[k]], #[trigger] p[k], fs[p[l]], #[trigger] p[l])
}

/// Whether `a` comes before `b`, or is `b`, field by field.
pub open spec fn position_le(a: (u32, u32, usize), b: (u32, u32, usize)) -> bool {
    a.0 < b.0 || (a.0 == b.0 && (a.1 < b.1 || (a.1 == b.1 && a.2 <= b.2)))
}

/// Relies on `slice::sort` over tuples of integers, which compare field by
/// field: the same items, in ascending order.
#[verifier::external_body]
pub(crate) fn sort_positions(v: &mut Vec<(u32, u32, usize)>)
    ensures
        final(v)@.to_multiset() == old(v)@.to_multiset(),
        forall|k: int, l: int|
            0 <= k < l < final(v)@.len() ==> position_le(final(v)@[k], final(v)@[l]),
{
    v.sort();
}

/// A copy of a fragment.
pub fn copy_fragment(f: &Fragment) -> (r: Fragment)
    ensures
        r@ == f@,
{
    Fragment { top: f.top, left: f.left, text: f.text.clone(), red: f.red }
}

/// Whether a fragment is kept for the layout of a page of size `d`.
pub fn keep_fragment(f: &Fragment, d: &DocumentDimensions) -> (r: bool)
    ensures
        r == keeps_fragment(f@, *d),
{
    if f.red || f.top < MAIN_CONTENT_TOP || f.top >= MAIN_CONTENT_BOTTOM {
        return false;
    }
    let bands = d.categories_area();
    let mut i: usize = 0;
    while i < bands.len()
        invariant
            bands@ == category_bands(d.width, d.height),
            i <= bands@.len(),
            forall|k: int| 0 <= k < i ==> !(bands@[k].0 <= f.top < #[trigger] bands@[k].1),
        decreases bands.len() - i,
    {
        if bands[i].0 <= f.top && f.top < bands[i].1 {
            return false;
        }
        i = i + 1;
    }
    true
}

/// The fragments kept for the layout of a page of size `d`, in their order.
pub fn filter_fragments(fragments: &Vec<Fragment>, d: &DocumentDimensions) -> (r: Vec<Fragment>)
    ensures
        fragment_views(r@) == kept_fragments(fragment_views(fragments@), *d),
{
    let mut r: Vec<Fragment> = Vec::new();
    let mut i: usize = 0;
    while i < fragments.len()
        invariant
            i <= fragments@.len(),
            fragment_views(r@) == kept_fragments(fragment_views(fragments@).subrange(0, i as int), *d),
        decreases fragments.len() - i,
    {
        let ghost before = r@;
        let ghost fs = fragment_views(fragments@).subrange(0, i + 1);
        assert(fs.drop_last() =~= fragment_views(fragments@).subrange(0, i as int));
        if keep_fragment(&fragments[i], d) {
            r.push(copy_fragment(&fragments[i]));
            assert(fragment_views(r@) =~= fragment_views(before).push(fragments@[i as int]@));
        }
        i = i + 1;
    }
    assert(fragment_views(fragments@).subrange(0, fragments@.len() as int) =~= fragment_views(fragments@));
    r
}

/// The fragments sorted by line and then from left to right, fragments at the
/// same place keeping their order.
pub fn sort_fragments(fragments: &Vec<Fragment>) -> (r: Vec<Fragment>)
    ensures
        is_reading_order(fragment_views(fragments@), fragment_views(r@)),
{
    let ghost fs = fragment_views(fragments@);
    let n = fragments.len();
    let mut keys: Vec<(u32, u32, usize)> = Vec::new();
    let mut i: usize = 0;
    while i < n
        invariant
            n == fragments@.len(),
            i <= n,
            keys@.len() == i,
            forall|k: int| 0 <= k < i ==> #[trigger] keys@[k] == (fragments@[k].top, fragments@[k].left, k as usize),
        decreases n - i,
    {
        keys.push((fragments[i].top, fragments[i].left, i));
        i = i + 1;
    }
    let ghost unsorted = keys@;
    proof {
        assert(unsorted.no_duplicates());
        unsorted.lemma_multiset_has_no_duplicates();
    }
    sort_positions(&mut keys);
    let ghost sorted = keys@;
    proof {
        broadcast use vstd::seq_lib::group_to_multiset_ensures;
        assert(sorted.to_multiset().len() == unsorted.to_multiset().len());
        assert(sorted.len() == n);
        sorted.lemma_multiset_has_no_duplicates_conv();
        assert forall|k: int| 0 <= k < n implies #[trigger] sorted[k].2 < n && sorted[k] == unsorted[sorted[k].2 as int] by {
            assert(sorted.to_multiset().count(sorted[k]) > 0);
            assert(unsorted.contains(sorted[k]));
        }
    }
    let mut r: Vec<Fragment> = Vec::new();
    let mut j: usize = 0;
    while j < n
        invariant
            n == fragments@.len(),
            fs == fragment_views(fragments@),
            keys@ == sorted,
            sorted.len() == n,
            forall|k: int| 0 <= k < n ==> #[trigger] sorted[k].2 < n && sorted[k] == unsorted[sorted[k].2 as int],
            forall|k: int| 0 <= k < n ==> #[trigger] unsorted[k] == (fragments@[k].top, fragments@[k].left, k as usize),
            j <= n,
            r@.len() == j,
            forall|k: int| 0 <= k < j ==> #[trigger] r@[k]@ == fs[sorted[k].2 as int],
        decreases n - j,
    {
        let idx = keys[j].2;
        r.push(copy_fragment(&fragments[idx]));
        j = j + 1;
    }
    proof {
        let p = sorted.map_values(|t: (u32, u32, usize)| t.2 as int);
        let order = fragment_views(r@);
        assert forall|k: int, l: int| 0 <= k < l < p.len() implies read_before(fs[p[k]], #[trigger] p[k], fs[p[l]], #[trigger] p[l]) by {
            assert(position_le(sorted[k], sorted[l]));
            assert(sorted.no_duplicates());
            assert(sorted[k] != sorted[l]);
            assert(sorted[k] == unsorted[sorted[k].2 as int]);
            assert(sorted[l] == unsorted[sorted[l].2 as int]);
        }
        assert forall|k: int| 0 <= k < p.len() implies order[k] == fs[#[trigger] p[k]] by {
            assert(r@[k]@ == fs[sorted[k].2 as int]);
        }
        assert(reading_permutation(fs, order, p));
    }
    r
}

} // verus!

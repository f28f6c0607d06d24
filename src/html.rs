//! Reading the positioned fragments out of the HTML that the renderer writes.
use vstd::prelude::*;

use crate::calendar::CalendarDate;
use crate::day::Day;
use crate::error::Error;
use crate::text::{
    contains_seq, parse_u32, parse_u32_spec, replace_all, replace_spec, str_contains,
};
use crate::fragment::{
    fragment_views, is_reading_order, kept_fragments, DocumentDimensions, Fragment, FragmentView,
};
use crate::week::{days_match, layout_days, parse_fragments};

verus! {

/// Whether `regex::Regex::new` accepts the pattern.
pub uninterp spec fn regex_valid(pattern: Seq<char>) -> bool;

/// The matches of `pattern` in `hay`, in order, as `regex::Regex::captures_iter`
/// gives them: for each, its groups, the whole match first, `None` for a group
/// that took no part.
pub uninterp spec fn regex_matches(pattern: Seq<char>, hay: Seq<char>) -> Seq<Seq<Option<Seq<char>>>>;

/// The views of the groups of one match.
pub open spec fn group_views(m: Seq<Option<String>>) -> Seq<Option<Seq<char>>> {
    m.map_values(
        |g: Option<String>|
            match g {
                Some(s) => Some(s@),
                None => None,
            },
    )
}

/// The views of a list of matches.
pub open spec fn match_views(ms: Seq<Vec<Option<String>>>) -> Seq<Seq<Option<Seq<char>>>> {
    ms.map_values(|m: Vec<Option<String>>| group_views(m@))
}

/// Relies on `regex::Regex::new` and `regex::Regex::captures_iter`.
#[verifier::external_body]
fn regex_captures(pattern: &str, hay: &str) -> (r: Option<Vec<Vec<Option<String>>>>)
    ensures
        r is Some <==> regex_valid(pattern@),
        r matches Some(ms) ==> match_views(ms@) == regex_matches(pattern@, hay@),
{
    let re = regex::Regex::new(pattern).ok()?;
    Some(
        re.captures_iter(hay).map(|c| c.iter().map(|g| g.map(|m| m.as_str().to_owned())).collect())
            .collect(),
    )
}

/// A text element of the renderer: its style and its text.
pub open spec fn div_pattern() -> Seq<char> {
    "<div style='(.+?)'>(.+?)</div>"@
}

/// The vertical position in a style.
pub open spec fn top_pattern() -> Seq<char> {
    "top:\\s?(\\d+)(?:\\.\\d+)?px"@
}

/// The horizontal position in a style.
pub open spec fn left_pattern() -> Seq<char> {
    "left:\\s?(\\d+)(?:\\.\\d+)?px"@
}

/// The first group of the first match of `pattern` in `hay`.
pub open spec fn first_group(pattern: Seq<char>, hay: Seq<char>) -> Option<Seq<char>> {
    let ms = regex_matches(pattern, hay);
    if ms.len() > 0 && ms[0].len() > 1 {
        ms[0][1]
    } else {
        None
    }
}

/// The fragment that one element gives: its text, its position read from its
/// style in whole pixels, and whether its style names red ink.
pub open spec fn fragment_of_match(m: Seq<Option<Seq<char>>>) -> Option<FragmentView> {
    if m.len() < 3 || m[1] is None || m[2] is None {
        None
    } else {
        let style = m[1]->Some_0;
        match (first_group(top_pattern(), style), first_group(left_pattern(), style)) {
            (Some(t), Some(l)) => match (parse_u32_spec(t), parse_u32_spec(l)) {
                (Some(top), Some(left)) => Some(
                    FragmentView {
                        top,
                        left,
                        text: m[2]->Some_0,
                        red: contains_seq(style, "color: red"@),
                    },
                ),
                _ => None,
            },
            _ => None,
        }
    }
}

/// The fragments of the elements, in order; an element without a position is
/// left out.
pub open spec fn fragments_of_matches(ms: Seq<Seq<Option<Seq<char>>>>) -> Seq<FragmentView>
    decreases ms.len(),
{
    if ms.len() == 0 {
        Seq::empty()
    } else {
        let p = fragments_of_matches(ms.drop_last());
        match fragment_of_match(ms.last()) {
            Some(f) => p.push(f),
            None => p,
        }
    }
}

/// The fragments of the renderer's HTML, its non-breaking spaces read as
/// spaces; `None` when a pattern is refused.
pub open spec fn html_fragments(html: Seq<char>) -> Option<Seq<FragmentView>> {
    if regex_valid(div_pattern()) && regex_valid(top_pattern()) && regex_valid(left_pattern()) {
        Some(fragments_of_matches(regex_matches(div_pattern(), replace_spec(html, "&nbsp;"@, " "@))))
    } else {
        None
    }
}

/// The first group of the first match of `pattern` in `hay`.
fn find_first_group(pattern: &str, hay: &str) -> (r: Option<String>)
    requires
        regex_valid(pattern@),
    ensures
        match r {
            Some(s) => first_group(pattern@, hay@) == Some(s@),
            None => first_group(pattern@, hay@) is None,
        },
{
    let ms = match regex_captures(pattern, hay) {
        Some(ms) => ms,
        None => return None,
    };
    let ghost mv = match_views(ms@);
    if ms.len() > 0 && ms[0].len() > 1 {
        assert(mv[0] == group_views(ms@[0]@));
        assert(mv[0][1] == match ms@[0]@[1] {
            Some(s) => Some(s@),
            None => None::<Seq<char>>,
        });
        match &ms[0][1] {
            Some(s) => Some(s.clone()),
            None => None,
        }
    } else {
        assert(ms@.len() > 0 ==> mv[0] == group_views(ms@[0]@));
        None
    }
}

/// The fragment that one element gives.
fn fragment_from_groups(m: &Vec<Option<String>>) -> (r: Option<Fragment>)
    requires
        regex_valid(top_pattern()),
        regex_valid(left_pattern()),
    ensures
        match r {
            Some(f) => fragment_of_match(group_views(m@)) == Some(f@),
            None => fragment_of_match(group_views(m@)) is None,
        },
{
    let ghost g = group_views(m@);
    if m.len() < 3 {
        return None;
    }
    assert(g[1] == match m@[1] {
        Some(s) => Some(s@),
        None => None::<Seq<char>>,
    });
    assert(g[2] == match m@[2] {
        Some(s) => Some(s@),
        None => None::<Seq<char>>,
    });
    let style = match &m[1] {
        Some(s) => s,
        None => return None,
    };
    let text = match &m[2] {
        Some(s) => s,
        None => return None,
    };
    let t = match find_first_group("top:\\s?(\\d+)(?:\\.\\d+)?px", style.as_str()) {
        Some(t) => t,
        None => return None,
    };
    let l = match find_first_group("left:\\s?(\\d+)(?:\\.\\d+)?px", style.as_str()) {
        Some(l) => l,
        None => return None,
    };
    let top = match parse_u32(t.as_str()) {
        Some(x) => x,
        None => return None,
    };
    let left = match parse_u32(l.as_str()) {
        Some(x) => x,
        None => return None,
    };
    let red = str_contains(style.as_str(), "color: red");
    Some(Fragment { top, left, text: text.clone(), red })
}

/// The fragments of the renderer's HTML.
pub fn fragments_of_html(html: &str) -> (r: Result<Vec<Fragment>, Error>)
    ensures
        match html_fragments(html@) {
            Some(fs) => r matches Ok(v) && fragment_views(v@) == fs,
            None => r == Err::<Vec<Fragment>, Error>(Error::Internal),
        },
{
    proof {
        reveal_strlit("&nbsp;");
    }
    let text = replace_all(html, "&nbsp;", " ");
    let ms = match regex_captures("<div style='(.+?)'>(.+?)</div>", text.as_str()) {
        Some(ms) => ms,
        None => return Err(Error::Internal),
    };
    if regex_captures("top:\\s?(\\d+)(?:\\.\\d+)?px", "").is_none() {
        return Err(Error::Internal);
    }
    if regex_captures("left:\\s?(\\d+)(?:\\.\\d+)?px", "").is_none() {
        return Err(Error::Internal);
    }
    let ghost mv = match_views(ms@);
    let mut r: Vec<Fragment> = Vec::new();
    let mut i: usize = 0;
    assert(mv.subrange(0, 0) =~= Seq::<Seq<Option<Seq<char>>>>::empty());
    assert(fragment_views(r@) =~= Seq::<FragmentView>::empty());
    while i < ms.len()
        invariant
            i <= ms@.len(),
            mv == match_views(ms@),
            regex_valid(top_pattern()),
            regex_valid(left_pattern()),
            fragment_views(r@) == fragments_of_matches(mv.subrange(0, i as int)),
        decreases ms.len() - i,
    {
        assert(mv.subrange(0, i + 1).drop_last() =~= mv.subrange(0, i as int));
        assert(mv[i as int] == group_views(ms@[i as int]@));
        let ghost before = r@;
        match fragment_from_groups(&ms[i]) {
            Some(f) => {
                r.push(f);
                assert(fragment_views(r@) =~= fragment_views(before).push(f@));
            },
            None => {},
        }
        i = i + 1;
    }
    assert(mv.subrange(0, ms@.len() as int) =~= mv);
    Ok(r)
}

/// The week that the renderer's HTML of a page of size `dimensions` gives,
/// `today` being the date now.
pub fn parse_html(html: &str, dimensions: &DocumentDimensions, today: CalendarDate) -> (r: Result<Vec<Day>, Error>)
    requires
        today.valid(),
    ensures
        match html_fragments(html@) {
            Some(fs) => exists|order: Seq<FragmentView>|
                is_reading_order(kept_fragments(fs, *dimensions), order) && days_match(r, layout_days(order, today)),
            None => r == Err::<Vec<Day>, Error>(Error::Internal),
        },
{
    let fragments = match fragments_of_html(html) {
        Ok(f) => f,
        Err(e) => return Err(e),
    };
    parse_fragments(&fragments, dimensions, today)
}

} // verus!

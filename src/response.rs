//! The forms in which the service answers.
use vstd::prelude::*;

use crate::text::{split_once, split_once_spec, str_eq, trim, trim_spec};

verus! {

/// A value that the service can show as plain text or as HTML.
pub trait TextRepresentable {
    fn as_plain_text(&self, human: bool) -> String;

    fn as_html(&self) -> String;
}

/// The media types that the service answers in.
#[derive(Clone, Copy, Debug, PartialEq, Eq, Structural)]
pub enum ResponseTypeRaw {
    Json,
    Text,
    Html,
}

impl ResponseTypeRaw {
    /// The media type's name.
    pub fn as_str(&self) -> (r: &'static str)
        ensures
            r@ == match self {
                ResponseTypeRaw::Json => "application/json"@,
                ResponseTypeRaw::Text => "text/plain"@,
                ResponseTypeRaw::Html => "text/html"@,
            },
    {
        match self {
            ResponseTypeRaw::Json => "application/json",
            ResponseTypeRaw::Text => "text/plain",
            ResponseTypeRaw::Html => "text/html",
        }
    }
}

/// The offered type that a media range names: the type itself or a wildcard
/// over it, `*/*` naming the first offered type.
pub open spec fn range_offer(media: Seq<char>) -> Option<ResponseTypeRaw> {
    if media == "application/json"@ || media == "application/*"@ || media == "*/*"@ {
        Some(ResponseTypeRaw::Json)
    } else if media == "text/plain"@ || media == "text/*"@ {
        Some(ResponseTypeRaw::Text)
    } else if media == "text/html"@ {
        Some(ResponseTypeRaw::Html)
    } else {
        None
    }
}

/// The media range of one item of an `Accept` header, its parameters left out.
pub open spec fn media_of(item: Seq<char>) -> Seq<char> {
    trim_spec(
        match split_once_spec(item, ';') {
            Some((m, _)) => m,
            None => item,
        },
    )
}

/// The offered type of the first item of an `Accept` header that names one.
pub open spec fn negotiate_spec(accept: Seq<char>) -> Option<ResponseTypeRaw>
    decreases accept.len(),
{
    if exists|i: int| crate::text::is_first_index(accept, ',', i) {
        let i = choose|i: int| crate::text::is_first_index(accept, ',', i);
        match range_offer(media_of(accept.subrange(0, i))) {
            Some(t) => Some(t),
            None => negotiate_spec(accept.subrange(i + 1, accept.len() as int)),
        }
    } else {
        range_offer(media_of(accept))
    }
}

fn offer_of(item: &str) -> (r: Option<ResponseTypeRaw>)
    ensures
        r == range_offer(media_of(item@)),
{
    let media = match split_once(item, ';') {
        Some((m, _)) => trim(m.as_str()),
        None => trim(item),
    };
    let m = media.as_str();
    if str_eq(m, "application/json") || str_eq(m, "application/*") || str_eq(m, "*/*") {
        Some(ResponseTypeRaw::Json)
    } else if str_eq(m, "text/plain") || str_eq(m, "text/*") {
        Some(ResponseTypeRaw::Text)
    } else if str_eq(m, "text/html") {
        Some(ResponseTypeRaw::Html)
    } else {
        None
    }
}

/// The type to answer in for an `Accept` header: the first of its items that
/// names an offered type; an absent or blank header accepts any type.
pub fn negotiate(accept: Option<&str>) -> (r: Option<ResponseTypeRaw>)
    ensures
        match accept {
            Some(a) => if trim_spec(a@).len() == 0 {
                r == Some(ResponseTypeRaw::Json)
            } else {
                r == negotiate_spec(a@)
            },
            None => r == Some(ResponseTypeRaw::Json),
        },
{
    let a = match accept {
        Some(a) => a,
        None => return Some(ResponseTypeRaw::Json),
    };
    if trim(a).unicode_len() == 0 {
        return Some(ResponseTypeRaw::Json);
    }
    let mut rest = String::from_str(a);
    loop
        invariant
            accept == Some(a),
            trim_spec(a@).len() != 0,
            negotiate_spec(rest@) == negotiate_spec(a@),
        decreases rest@.len(),
    {
        match split_once(rest.as_str(), ',') {
            Some((item, tail)) => {
                let ghost i = choose|i: int| crate::text::is_first_index(rest@, ',', i);
                assert(exists|i: int| crate::text::is_first_index(rest@, ',', i));
                assert(item@ == rest@.subrange(0, i));
                assert(tail@ == rest@.subrange(i + 1, rest@.len() as int));
                match offer_of(item.as_str()) {
                    Some(t) => return Some(t),
                    None => {},
                }
                rest = tail;
            },
            None => {
                assert(!exists|i: int| crate::text::is_first_index(rest@, ',', i));
                return offer_of(rest.as_str());
            },
        }
    }
}

} // verus!

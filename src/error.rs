//! The failures of the library and of the service around it.
use vstd::prelude::*;

use crate::response::TextRepresentable;

verus! {

/// A failure, as the service reports it.
#[derive(Clone, Copy, Debug, PartialEq, Eq, Structural)]
pub enum Error {
    ContentNegotiation,
    InvalidBody,
    /// The page does not hold a layout that a week can be read from.
    InvalidPdf,
    InvalidJson,
    NoMealToday,
    NoNextMeal,
    InvalidWeek,
    InvalidDay,
    WeekNotFound,
    DayNotFound,
    InvalidFormatParameter,
    Internal,
}

/// The HTTP status that goes with each failure.
pub open spec fn status_of(e: Error) -> u16 {
    match e {
        Error::NoMealToday | Error::NoNextMeal | Error::WeekNotFound | Error::DayNotFound => 404,
        Error::Internal => 500,
        _ => 400,
    }
}

/// The short English description of each failure.
pub open spec fn description_of(e: Error) -> Seq<char> {
    match e {
        Error::ContentNegotiation => "content negotiation failed"@,
        Error::InvalidBody => "invalid body"@,
        Error::InvalidPdf => "invalid pdf"@,
        Error::InvalidJson => "invalid json"@,
        Error::NoMealToday => "no meal found for today"@,
        Error::NoNextMeal => "no next meal found"@,
        Error::InvalidWeek => "invalid week"@,
        Error::InvalidDay => "invalid day"@,
        Error::WeekNotFound => "week not found"@,
        Error::DayNotFound => "day not found"@,
        Error::InvalidFormatParameter => "invalid format parameter"@,
        Error::Internal => "internal error"@,
    }
}

/// The French message shown to a reader for each failure.
pub open spec fn plain_text_of(e: Error) -> Seq<char> {
    match e {
        Error::ContentNegotiation => "Requête invalide."@,
        Error::NoMealToday => "Aucun repas de prévu pour aujourd'hui."@,
        Error::NoNextMeal => "Aucun repas de prévu pour bientôt."@,
        Error::InvalidWeek => "Format de semaine incorrect."@,
        Error::InvalidDay => "Format de date incorrect."@,
        Error::WeekNotFound => "Aucun menu trouvé pour cette semaine."@,
        Error::DayNotFound => "Aucun menu trouvé pour ce jour."@,
        _ => description_of(e),
    }
}

impl Error {
    /// The HTTP status code of the failure.
    pub fn status_code(&self) -> (r: u16)
        ensures
            r == status_of(*self),
    {
        match self {
            Error::ContentNegotiation => 400,
            Error::InvalidBody => 400,
            Error::InvalidPdf => 400,
            Error::InvalidJson => 400,
            Error::NoMealToday => 404,
            Error::NoNextMeal => 404,
            Error::InvalidWeek => 400,
            Error::InvalidDay => 400,
            Error::WeekNotFound => 404,
            Error::DayNotFound => 404,
            Error::InvalidFormatParameter => 400,
            Error::Internal => 500,
        }
    }

    /// The short description of the failure.
    pub fn description(&self) -> (r: String)
        ensures
            r@ == description_of(*self),
    {
        let s = match self {
            Error::ContentNegotiation => "content negotiation failed",
            Error::InvalidBody => "invalid body",
            Error::InvalidPdf => "invalid pdf",
            Error::InvalidJson => "invalid json",
            Error::NoMealToday => "no meal found for today",
            Error::NoNextMeal => "no next meal found",
            Error::InvalidWeek => "invalid week",
            Error::InvalidDay => "invalid day",
            Error::WeekNotFound => "week not found",
            Error::DayNotFound => "day not found",
            Error::InvalidFormatParameter => "invalid format parameter",
            Error::Internal => "internal error",
        };
        String::from_str(s)
    }
}

impl TextRepresentable for Error {
    fn as_plain_text(&self, _human: bool) -> (r: String)
        ensures
            r@ == plain_text_of(*self),
    {
        match self {
            Error::ContentNegotiation => String::from_str("Requête invalide."),
            Error::NoMealToday => String::from_str("Aucun repas de prévu pour aujourd'hui."),
            Error::NoNextMeal => String::from_str("Aucun repas de prévu pour bientôt."),
            Error::InvalidWeek => String::from_str("Format de semaine incorrect."),
            Error::InvalidDay => String::from_str("Format de date incorrect."),
            Error::WeekNotFound => String::from_str("Aucun menu trouvé pour cette semaine."),
            Error::DayNotFound => String::from_str("Aucun menu trouvé pour ce jour."),
            _ => self.description(),
        }
    }

    fn as_html(&self) -> (r: String)
        ensures
            r@ == "<div class=\"error\">"@ + plain_text_of(*self) + "</div>"@,
    {
        let mut out = String::from_str("<div class=\"error\">");
        let text = self.as_plain_text(false);
        out.append(text.as_str());
        out.append("</div>");
        out
    }
}

} // verus!

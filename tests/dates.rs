use ovr::calendar::{
    decimal_string, format_human_date, month_as_fr_str, weekday_as_fr_str, parse_fr_month_str, parse_fr_weekday_str, resolve_date, today_utc, CalendarDate};
use ovr::day::parse_header_date;
use ovr::error::Error;
use ovr::response::{negotiate, ResponseTypeRaw, TextRepresentable};
use ovr::text::{parse_i16, parse_u8};

fn date(year: i32, month: u8, day: u8) -> CalendarDate {
    CalendarDate { year, month, day }
}

#[test]
fn monday_thirteenth_of_march_resolves_to_nearest_year() {
    assert_eq!(resolve_date(0, 13, 3, date(2024, 3, 10)), Some(date(2023, 3, 13)));
    assert_eq!(parse_header_date("Lundi 13 mars", date(2024, 3, 10)), Some(date(2023, 3, 13)));
}

#[test]
fn resolution_uses_weekday() {
    assert_eq!(resolve_date(2, 13, 3, date(2024, 3, 10)), Some(date(2024, 3, 13)));
    assert_eq!(resolve_date(3, 13, 3, date(2024, 3, 10)), Some(date(2025, 3, 13)));
    assert_eq!(resolve_date(4, 13, 3, date(2024, 3, 10)), None);
    assert_eq!(resolve_date(0, 30, 2, date(2024, 3, 10)), None);
}

#[test]
fn leap_day_resolves() {
    assert_eq!(parse_header_date("Jeudi 29 février", date(2024, 1, 5)), Some(date(2024, 2, 29)));
    assert_eq!(parse_header_date("jeudi 29 fevrier", date(2024, 1, 5)), Some(date(2024, 2, 29)));
}

#[test]
fn worded_header_needs_three_parts() {
    assert_eq!(parse_header_date("Lundi 13", date(2024, 3, 10)), None);
    assert_eq!(parse_header_date("Lundi 13 mars 2023", date(2024, 3, 10)), None);
    assert_eq!(parse_header_date("Lunday 13 mars", date(2024, 3, 10)), None);
    assert_eq!(parse_header_date("Lundi treize mars", date(2024, 3, 10)), None);
}

#[test]
fn numeric_header() {
    assert_eq!(parse_header_date("2024-03-13", date(2000, 1, 1)), Some(date(2024, 3, 13)));
    assert_eq!(parse_header_date("2024-13-01", date(2000, 1, 1)), None);
    assert_eq!(parse_header_date("2024-257-01", date(2000, 1, 1)), None);
    assert_eq!(parse_header_date("2024-259-13", date(2000, 1, 1)), None);
    assert_eq!(parse_header_date("2024-03-0", date(2000, 1, 1)), None);
    assert_eq!(parse_header_date("2024-02-29", date(2000, 1, 1)), Some(date(2024, 2, 29)));
    assert_eq!(parse_header_date("2024-03", date(2000, 1, 1)), None);
    assert_eq!(parse_header_date("2024-03-1-2", date(2000, 1, 1)), None);
}

#[test]
fn french_names() {
    assert_eq!(parse_fr_weekday_str("LUNDI"), Some(0));
    assert_eq!(parse_fr_weekday_str("Dimanche"), Some(6));
    assert_eq!(parse_fr_weekday_str("monday"), None);
    assert_eq!(parse_fr_month_str("Août"), Some(8));
    assert_eq!(parse_fr_month_str("aout"), Some(8));
    assert_eq!(parse_fr_month_str("DÉCEMBRE"), Some(12));
    assert_eq!(parse_fr_month_str("dec"), None);
}

#[test]
fn numbers() {
    assert_eq!(parse_u8("013"), Some(13));
    assert_eq!(parse_u8("+7"), Some(7));
    assert_eq!(parse_u8("+"), None);
    assert_eq!(parse_u8("256"), None);
    assert_eq!(parse_u8("255"), Some(255));
    assert_eq!(parse_u8("-1"), None);
    assert_eq!(parse_u8(""), None);
    assert_eq!(parse_i16("-32768"), Some(-32768));
    assert_eq!(parse_i16("32768"), None);
    assert_eq!(parse_i16("-"), None);
}

#[test]
fn calendar_date_validity() {
    assert_eq!(CalendarDate::new(2023, 2, 29), None);
    assert_eq!(CalendarDate::new(2000, 2, 29), Some(date(2000, 2, 29)));
    assert_eq!(CalendarDate::new(1900, 2, 29), None);
    assert_eq!(CalendarDate::new(2024, 0, 1), None);
    assert_eq!(CalendarDate::new(10000, 1, 1), None);
    let t = today_utc();
    assert!(CalendarDate::new(t.year, t.month, t.day).is_some());
}

#[test]
fn error_status_and_text() {
    assert_eq!(Error::InvalidPdf.status_code(), 400);
    assert_eq!(Error::DayNotFound.status_code(), 404);
    assert_eq!(Error::Internal.status_code(), 500);
    assert_eq!(Error::InvalidPdf.as_plain_text(false), "invalid pdf");
    assert_eq!(Error::WeekNotFound.as_plain_text(true), "Aucun menu trouvé pour cette semaine.");
    assert_eq!(Error::NoMealToday.as_html(), "<div class=\"error\">Aucun repas de prévu pour aujourd'hui.</div>");
}

fn menu(fields: &[&str]) -> ovr::day::Day {
    let fields = fields.iter().map(|f| f.to_string()).collect();
    ovr::day::Day::new_at(fields, date(2024, 1, 1)).unwrap().unwrap()
}

#[test]
fn day_as_text() {
    let d = menu(&["2024-03-13", "Soupe", "Pain", "Fruit"]);
    assert_eq!(d.as_plain_text(false, date(2024, 3, 13)), "Soupe\nPain\nFruit");
    assert_eq!(d.as_plain_text(true, date(2024, 3, 13)), "Au menu aujourd'hui : Soupe, Pain et Fruit.");
    assert_eq!(d.as_plain_text(true, date(2024, 3, 12)), "Au menu demain : Soupe, Pain et Fruit.");
    assert_eq!(d.as_plain_text(true, date(2024, 3, 8)), "Au menu mercredi prochain : Soupe, Pain et Fruit.");
    assert_eq!(d.as_plain_text(true, date(2024, 1, 1)), "Au menu le mercredi 13 mars : Soupe, Pain et Fruit.");
    let one = menu(&["2024-08-01", "Glace"]);
    assert_eq!(one.as_plain_text(true, date(2024, 8, 5)), "Au menu le jeudi 1 août : Glace.");
}

#[test]
fn french_names_and_numbers_out() {
    assert_eq!(weekday_as_fr_str(2, true), "Mercredi");
    assert_eq!(weekday_as_fr_str(6, false), "dimanche");
    assert_eq!(month_as_fr_str(12), "décembre");
    assert_eq!(decimal_string(0), "0");
    assert_eq!(decimal_string(255), "255");
    assert_eq!(format_human_date(date(2024, 3, 20), date(2024, 3, 13)), "mercredi prochain");
    assert_eq!(format_human_date(date(2024, 3, 21), date(2024, 3, 13)), "le jeudi 21 mars");
    assert_eq!(format_human_date(date(2024, 3, 12), date(2024, 3, 13)), "le mardi 12 mars");
}

#[test]
fn media_type_names() {
    assert_eq!(ResponseTypeRaw::Json.as_str(), "application/json");
    assert_eq!(ResponseTypeRaw::Text.as_str(), "text/plain");
    assert_eq!(ResponseTypeRaw::Html.as_str(), "text/html");
}

#[test]
fn accept_header_negotiation() {
    assert_eq!(negotiate(None), Some(ResponseTypeRaw::Json));
    assert_eq!(negotiate(Some("  ")), Some(ResponseTypeRaw::Json));
    assert_eq!(negotiate(Some("text/html,application/xhtml+xml;q=0.9,*/*;q=0.8")), Some(ResponseTypeRaw::Html));
    assert_eq!(negotiate(Some("image/png, text/plain; charset=utf-8")), Some(ResponseTypeRaw::Text));
    assert_eq!(negotiate(Some("text/*")), Some(ResponseTypeRaw::Text));
    assert_eq!(negotiate(Some("*/*")), Some(ResponseTypeRaw::Json));
    assert_eq!(negotiate(Some("image/png")), None);
}

#[test]
fn central_european_summer_time() {
    let f = ovr::calendar::central_european_offset;
    assert_eq!(f(date(2024, 3, 31), 3599), 1);
    assert_eq!(f(date(2024, 3, 31), 3600), 2);
    assert_eq!(f(date(2024, 7, 14), 43200), 2);
    assert_eq!(f(date(2024, 10, 27), 3599), 2);
    assert_eq!(f(date(2024, 10, 27), 3600), 1);
    assert_eq!(f(date(2024, 1, 15), 0), 1);
    assert_eq!(f(date(2024, 12, 31), 84600), 1);
    assert_eq!(f(date(2023, 3, 26), 3600), 2);
    assert_eq!(f(date(2023, 3, 25), 3600), 1);
}

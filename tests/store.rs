use ovr::calendar::{format_date, CalendarDate};
use ovr::catalogue::{Catalogue, CatalogueUpdate};
use ovr::day::Day;
use ovr::error::Error;
use ovr::html::{fragments_of_html, parse_html};
use ovr::fragment::DocumentDimensions;

fn ymd(year: i32, month: u8, day: u8) -> CalendarDate {
    CalendarDate { year, month, day }
}

fn day(header: &str, dishes: &[&str]) -> Day {
    let mut fields = vec![header.to_string()];
    fields.extend(dishes.iter().map(|d| d.to_string()));
    Day::new_at(fields, ymd(2024, 1, 1)).unwrap().unwrap()
}

fn dates(c: &Catalogue) -> Vec<CalendarDate> {
    c.days().iter().map(|d| d.date()).collect()
}

#[test]
fn insert_keeps_date_order_and_reports() {
    let mut c = Catalogue::new();
    let u = c.insert(vec![day("2024-03-14", &["Riz"]), day("2024-03-12", &["Pain"])]);
    assert_eq!(u.inserted, vec![ymd(2024, 3, 12), ymd(2024, 3, 14)]);
    assert!(u.replaced.is_empty());
    let u = c.insert(vec![day("2024-03-13", &["Soupe"]), day("2024-03-14", &["Pâtes"])]);
    assert_eq!(u.inserted, vec![ymd(2024, 3, 13)]);
    assert_eq!(u.replaced, vec![ymd(2024, 3, 14)]);
    assert_eq!(dates(&c), vec![ymd(2024, 3, 12), ymd(2024, 3, 13), ymd(2024, 3, 14)]);
    assert_eq!(c.day(ymd(2024, 3, 14)).unwrap().dishes_ref(), &vec!["Pâtes".to_string()]);
    assert!(matches!(c.day(ymd(2024, 3, 15)), Err(Error::DayNotFound)));
}

#[test]
fn update_merge() {
    let mut a = CatalogueUpdate { inserted: vec![ymd(2024, 3, 12)], replaced: vec![] };
    assert!(!a.is_empty());
    let b = CatalogueUpdate { inserted: vec![ymd(2024, 3, 13)], replaced: vec![ymd(2024, 3, 12), ymd(2024, 3, 20)] };
    a.add_assign(b);
    assert_eq!(a.inserted, vec![ymd(2024, 3, 12), ymd(2024, 3, 13)]);
    assert_eq!(a.replaced, vec![ymd(2024, 3, 20)]);
    assert!(CatalogueUpdate::default().is_empty());
}

#[test]
fn today_next_and_search() {
    let mut c = Catalogue::new();
    c.insert(vec![
        day("2024-03-12", &["Poulet basquaise", "Riz"]),
        day("2024-03-13", &["Soupe à l'oignon"]),
        day("2024-03-15", &["Poisson", "Riz pilaf"]),
    ]);
    assert_eq!(c.today(ymd(2024, 3, 13)).unwrap().date(), ymd(2024, 3, 13));
    assert!(c.today(ymd(2024, 3, 14)).is_none());
    assert_eq!(c.next(ymd(2024, 3, 13), 11).unwrap().date(), ymd(2024, 3, 13));
    assert_eq!(c.next(ymd(2024, 3, 13), 14).unwrap().date(), ymd(2024, 3, 15));
    assert!(c.next(ymd(2024, 3, 15), 15).is_none());
    let found = c.find_dish_next(vec!["RIZ".to_string()], ymd(2024, 3, 13), 9).unwrap();
    assert_eq!(found.date(), ymd(2024, 3, 15));
    let found = c.find_dish_next(vec!["riz".to_string(), "poulet".to_string()], ymd(2024, 3, 1), 9);
    assert_eq!(found.unwrap().date(), ymd(2024, 3, 12));
    assert!(c.find_dish_next(vec!["frites".to_string()], ymd(2024, 3, 1), 9).is_none());
}

#[test]
fn week_selection() {
    let mut c = Catalogue::new();
    c.insert(vec![day("2024-03-11", &["A"]), day("2024-03-17", &["B"]), day("2024-03-18", &["C"])]);
    let w = c.week(2024, 11).unwrap();
    assert_eq!(dates(&w), vec![ymd(2024, 3, 11), ymd(2024, 3, 17)]);
    assert!(matches!(c.week(2024, 30), Err(Error::WeekNotFound)));
    assert!(matches!(c.week(2023, 11), Err(Error::WeekNotFound)));
}

#[test]
fn html_elements_become_fragments() {
    let html = "<div style='position: absolute; color: red; left: 10.5px; top: 200px; font-size: 9px'>Note</div>\n\
                <div style='position: absolute; left: 20px; top: 130.25px; font-size: 9px'>Riz&nbsp;blanc</div>\n\
                <div style='position: absolute; font-size: 9px'>Lost</div>";
    let fs = fragments_of_html(html).unwrap();
    assert_eq!(fs.len(), 2);
    assert!(fs[0].red);
    assert_eq!((fs[0].top, fs[0].left), (200, 10));
    assert!(!fs[1].red);
    assert_eq!((fs[1].top, fs[1].left), (130, 20));
    assert_eq!(fs[1].text, "Riz blanc");
}

#[test]
fn html_page_gives_a_week() {
    let mut html = String::new();
    let cells = [(125, 50, "Lundi 13 mars"), (250, 50, "Salade"), (125, 250, "Mardi 14 mars"), (250, 250, "Soupe")];
    for (top, left, text) in cells.iter() {
        html += &format!("<div style='position: absolute; left: {}px; top: {}px; font-size: 9px'>{}</div>\n", left, top, text);
    }
    let page = DocumentDimensions { width: 792, height: 612 };
    let days = parse_html(&html, &page, ymd(2024, 3, 10)).unwrap();
    assert_eq!(days.len(), 2);
    assert_eq!(days[0].date(), ymd(2023, 3, 13));
    assert_eq!(days[1].dishes_ref(), &vec!["Soupe".to_string()]);
    assert!(matches!(parse_html("", &page, ymd(2024, 3, 10)), Err(Error::InvalidPdf)));
}

#[test]
fn dates_and_updates_as_text() {
    assert_eq!(format_date(ymd(2024, 3, 5)), "2024-03-05");
    assert_eq!(format_date(ymd(987, 12, 25)), "0987-12-25");
    assert_eq!(format_date(ymd(-44, 3, 15)), "-0044-03-15");
    let u = CatalogueUpdate { inserted: vec![ymd(2024, 3, 12), ymd(2024, 3, 13)], replaced: vec![ymd(2024, 3, 14)] };
    assert_eq!(u.as_plain_text(), "Inserted:\n2024-03-12\n2024-03-13\n\nReplaced:\n2024-03-14");
    let r = CatalogueUpdate { inserted: vec![], replaced: vec![ymd(2024, 3, 14)] };
    assert_eq!(r.as_plain_text(), "Replaced:\n2024-03-14");
    assert_eq!(CatalogueUpdate::default().as_plain_text(), "");
}

#[test]
fn catalogue_as_text() {
    let mut c = Catalogue::new();
    c.insert(vec![day("2024-03-13", &["Soupe", "Pain"]), day("2024-03-12", &["Riz"])]);
    assert_eq!(c.as_plain_text(false, ymd(2024, 3, 12)), "2024-03-12 :\nRiz\n\n2024-03-13 :\nSoupe\nPain");
    assert_eq!(
        c.as_plain_text(true, ymd(2024, 3, 12)),
        "2024-03-12 :\nAu menu aujourd'hui : Riz.\n\n2024-03-13 :\nAu menu demain : Soupe et Pain."
    );
}

use ovr::calendar::CalendarDate;
use ovr::day::Day;
use ovr::error::Error;
use ovr::columns::{build_columns, dedup_column};
use ovr::fragment::{filter_fragments, sort_fragments, DocumentDimensions, Fragment};
use ovr::rows::remove_repeated_rows;
use ovr::run::{merge_runs, DishBuilder};
use ovr::week::{parse_fragments, parse_json};

fn frag(top: u32, left: u32, text: &str) -> Fragment {
    Fragment { top, left, text: text.to_string(), red: false }
}

fn run(top: u32, start: u32, end: u32, text: &str) -> DishBuilder {
    DishBuilder { top, start, end, text: text.to_string() }
}

fn cal(year: i32, month: u8, day: u8) -> CalendarDate {
    CalendarDate { year, month, day }
}

fn page() -> DocumentDimensions {
    DocumentDimensions { width: 792, height: 612 }
}

#[test]
fn no_fragments_is_unparsable() {
    let r = parse_fragments(&Vec::new(), &page(), cal(2024, 3, 10));
    assert!(matches!(r, Err(Error::InvalidPdf)));
}

#[test]
fn adjacent_fragments_merge_into_one_run() {
    let runs = merge_runs(&vec![frag(200, 0, "Sal"), frag(200, 4, "ade")]);
    assert_eq!(runs.len(), 1);
    assert_eq!(runs[0].text, "Salade");
    assert_eq!(runs[0].start, 0);
    assert_eq!(runs[0].end, 16);
}

#[test]
fn distant_fragments_stay_apart() {
    let runs = merge_runs(&vec![frag(200, 0, "Sal"), frag(200, 40, "ade"), frag(210, 0, "Riz ")]);
    assert_eq!(runs.len(), 3);
    assert_eq!(runs[0].text, "Sal");
    assert_eq!(runs[1].text, "ade");
    assert_eq!(runs[2].text, "Riz");
}

#[test]
fn run_start_drops_leading_white_space() {
    let runs = merge_runs(&vec![frag(200, 10, "  Riz")]);
    assert_eq!(runs[0].text, "Riz");
    assert_eq!(runs[0].end, 22);
}

#[test]
fn merged_text_after_space_drops_leading_space() {
    let runs = merge_runs(&vec![frag(200, 0, "Pot "), frag(200, 16, "  au feu")]);
    assert_eq!(runs.len(), 1);
    assert_eq!(runs[0].text, "Pot au feu");
}

#[test]
fn merged_text_with_double_trailing_space_is_cut() {
    let mut r = run(200, 0, 12, "Riz");
    r.absorb_text(" cantonais   ");
    assert_eq!(r.text, "Riz cantonais");
}

#[test]
fn repeated_label_row_is_removed() {
    let mut runs = Vec::new();
    for c in 0..5u32 {
        let text = if c == 3 { "Autre" } else { "Semaine 12" };
        runs.push(run(130, c * 150, c * 150 + 40, text));
    }
    for c in 0..5u32 {
        runs.push(run(170, c * 150, c * 150 + 40, &format!("Plat {}", c)));
    }
    let kept = remove_repeated_rows(&runs);
    assert_eq!(kept.len(), 5);
    assert!(kept.iter().all(|r| r.top == 170));
}

#[test]
fn repeated_label_row_ignores_case() {
    let runs = vec![run(130, 0, 40, "Menu"), run(130, 150, 190, "MENU"), run(170, 0, 40, "Riz")];
    let kept = remove_repeated_rows(&runs);
    assert_eq!(kept.len(), 1);
    assert_eq!(kept[0].text, "Riz");
}

#[test]
fn near_centres_share_a_column() {
    let runs = vec![run(200, 10, 10, "Alpha"), run(220, 38, 38, "Beta"), run(240, 300, 300, "Gamma")];
    let cols = build_columns(&runs);
    assert_eq!(cols.len(), 2);
    assert_eq!(cols[0].len(), 2);
    assert_eq!(cols[0][0].text, "Alpha");
    assert_eq!(cols[0][1].text, "Beta");
    assert_eq!(cols[1].len(), 1);
    assert_eq!(cols[1][0].text, "Gamma");
}

#[test]
fn lower_case_continuation_joins_the_dish() {
    let runs = vec![
        run(100, 100, 124, "Poulet"),
        run(110, 100, 136, "basquaise"),
        run(112, 100, 112, "Riz"),
    ];
    let cols = build_columns(&runs);
    assert_eq!(cols.len(), 1);
    assert_eq!(cols[0].len(), 2);
    assert_eq!(cols[0][0].text, "Poulet basquaise");
    assert_eq!(cols[0][0].start, 100);
    assert_eq!(cols[0][0].end, 136);
    assert_eq!(cols[0][1].text, "Riz");
}

#[test]
fn duplicate_dish_keeps_first_casing() {
    let col = vec![run(100, 0, 12, "Eau"), run(120, 0, 12, "eau"), run(140, 0, 12, "Pain")];
    let d = dedup_column(&col);
    assert_eq!(d.len(), 2);
    assert_eq!(d[0].text, "Eau");
    assert_eq!(d[1].text, "Pain");
}

#[test]
fn fragments_are_sorted_by_line_then_left() {
    let fs = vec![frag(200, 50, "c"), frag(150, 90, "b"), frag(150, 10, "a"), frag(200, 50, "d")];
    let sorted = sort_fragments(&fs);
    let texts: Vec<&str> = sorted.iter().map(|f| f.text.as_str()).collect();
    assert_eq!(texts, vec!["a", "b", "c", "d"]);
}

#[test]
fn filter_drops_red_out_of_band_and_label_fragments() {
    let mut red = frag(250, 10, "Note");
    red.red = true;
    let fs = vec![
        frag(100, 10, "Titre"),
        frag(140, 10, "Entrées"),
        frag(250, 10, "Salade"),
        red,
        frag(525, 10, "Pied"),
        frag(524, 10, "Fruit"),
    ];
    let kept = filter_fragments(&fs, &page());
    let texts: Vec<&str> = kept.iter().map(|f| f.text.as_str()).collect();
    assert_eq!(texts, vec!["Salade", "Fruit"]);
}

#[test]
fn label_bands_follow_the_page_size() {
    let other = DocumentDimensions { width: 841, height: 595 };
    assert_eq!(other.categories_area()[0], (139, 169));
    assert_eq!(page().categories_area()[0], (136, 166));
    let unknown = DocumentDimensions { width: 10, height: 10 };
    assert_eq!(unknown.categories_area(), page().categories_area());
    let kept = filter_fragments(&vec![frag(137, 10, "Plat")], &other);
    assert_eq!(kept.len(), 1);
}

#[test]
fn synthetic_week_round_trip() {
    let headers = ["Lundi 13 mars", "Mardi 14 mars", "Mercredi 15 mars", "Jeudi 16 mars", "Vendredi 17 mars"];
    let tops = [125u32, 170, 180, 230, 250, 270];
    let mut fs = Vec::new();
    for (c, h) in headers.iter().enumerate() {
        let left = 50 + 150 * c as u32;
        fs.push(frag(tops[0], left, h));
        for r in 1..6 {
            fs.push(frag(tops[r], left, &format!("Plat {} {}", c, r)));
        }
    }
    fs.reverse();
    let days = parse_fragments(&fs, &page(), cal(2024, 3, 10)).unwrap();
    assert_eq!(days.len(), 5);
    for (c, d) in days.iter().enumerate() {
        assert_eq!(d.date(), cal(2023, 3, 13 + c as u8));
        let expected: Vec<String> = (1..6).map(|r| format!("Plat {} {}", c, r)).collect();
        assert_eq!(d.dishes_ref(), &expected);
    }
}

#[test]
fn lone_headers_are_unparsable() {
    let fs = vec![frag(125, 50, "Lundi 13 mars"), frag(125, 300, "Mardi 14 mars")];
    assert!(matches!(parse_fragments(&fs, &page(), cal(2024, 3, 10)), Err(Error::InvalidPdf)));
}

#[test]
fn bad_header_is_unparsable() {
    let fs = vec![frag(125, 50, "Lundi 14 mars"), frag(250, 50, "Soupe")];
    assert!(matches!(parse_fragments(&fs, &page(), cal(2024, 3, 10)), Err(Error::InvalidPdf)));
}

#[test]
fn json_rows_give_days() {
    let days = parse_json(br#"[["2024-03-13","Soupe","Pain"],["2024-03-14"]]"#).unwrap();
    assert_eq!(days.len(), 1);
    assert_eq!(days[0].date(), cal(2024, 3, 13));
    assert_eq!(days[0].clone().dishes(), vec!["Soupe".to_string(), "Pain".to_string()]);
}

#[test]
fn json_errors() {
    assert!(matches!(parse_json(b"not json"), Err(Error::InvalidJson)));
    assert!(matches!(parse_json(br#"[[]]"#), Err(Error::InvalidPdf)));
    assert!(matches!(parse_json(br#"[["2024-02-30","Soupe"]]"#), Err(Error::InvalidPdf)));
}

#[test]
fn day_from_fields() {
    assert!(matches!(Day::new(Vec::new()), Err(Error::InvalidPdf)));
    assert!(matches!(Day::new(vec!["2024-03-13".to_string()]), Ok(None)));
    let d = Day::new_at(vec!["lundi 13 MARS".to_string(), "Riz".to_string()], cal(2024, 3, 10))
        .unwrap()
        .unwrap();
    assert_eq!(d.date(), cal(2023, 3, 13));
    let mut d = d;
    d.replace_dishes(vec!["Pâtes".to_string()]);
    assert_eq!(d.dishes_ref(), &vec!["Pâtes".to_string()]);
}

#[test]
fn joined_dish_after_blank_run_is_trimmed() {
    let fs = vec![
        frag(125, 50, "Lundi 13 mars"),
        frag(250, 50, "   "),
        frag(260, 50, "basquaise"),
        frag(280, 50, "Riz"),
    ];
    let days = parse_fragments(&fs, &page(), cal(2024, 3, 10)).unwrap();
    assert_eq!(days.len(), 1);
    assert_eq!(days[0].dishes_ref(), &vec!["basquaise".to_string(), "Riz".to_string()]);
}

#[test]
fn numeric_header_out_of_range_is_unparsable() {
    let fs = vec![frag(125, 50, "2024-259-13"), frag(250, 50, "Soupe")];
    assert!(matches!(parse_fragments(&fs, &page(), cal(2024, 3, 10)), Err(Error::InvalidPdf)));
}

use catering_menu::{
    choose_inferred_week_start, date_from_captures, format_date, is_menu_href, month_from_name,
    parse_date_param, parse_week_commencing, parse_week_commencing_from_pdf_text,
    parse_weekly_menu, select_menu_anchors, Date, MenuIndex, Period,
};

fn date(y: i32, m: u32, d: u32) -> Date {
    Date::from_ymd(y, m, d).unwrap()
}

#[test]
fn dates_round_trip_through_text() {
    for (y, m, d) in [(2026, 2, 9), (2024, 2, 29), (1, 1, 1), (0, 12, 31), (12345, 6, 7)] {
        let dt = date(y, m, d);
        let iso = format_date(dt);
        assert_eq!(parse_date_param(&iso), Some(dt));
        assert_eq!(parse_date_param(&iso.replace('-', "/")), Some(dt));
        assert_eq!(dt.ymd(), (y, m, d));
    }
    assert_eq!(format_date(date(2026, 2, 9)), "2026-02-09");
    assert_eq!(format_date(date(7, 3, 4)), "0007-03-04");
    assert_eq!(format_date(date(-1, 3, 4)), "-001-03-04");
}

#[test]
fn query_dates_accept_mixed_separators() {
    let want = Some(date(2026, 2, 9));
    assert_eq!(parse_date_param("2026-02-09"), want);
    assert_eq!(parse_date_param("2026/02/09"), want);
    assert_eq!(parse_date_param("2026/2-9"), want);
    assert_eq!(parse_date_param("/2026//02--09/"), want);
    assert_eq!(parse_date_param("+2026-+2-09"), want);
}

#[test]
fn query_dates_are_rejected() {
    assert_eq!(parse_date_param("2026-02"), None);
    assert_eq!(parse_date_param("2026-02-09-01"), None);
    assert_eq!(parse_date_param(""), None);
    assert_eq!(parse_date_param("2026-02-30"), None);
    assert_eq!(parse_date_param("2025-02-29"), None);
    assert_eq!(parse_date_param("2026-13-01"), None);
    assert_eq!(parse_date_param("2026-ab-01"), None);
    assert_eq!(parse_date_param("2026-02-4294967296"), None);
    assert_eq!(parse_date_param("2026 02 09"), None);
    assert_eq!(parse_date_param("+-02-09"), None);
}

#[test]
fn date_arithmetic_and_weekdays() {
    let mon = date(2026, 2, 9);
    assert_eq!(mon.weekday_from_monday(), 0);
    assert_eq!(date(2026, 2, 15).weekday_from_monday(), 6);
    assert_eq!(date(1, 1, 1).days(), 1);
    assert_eq!(date(1970, 1, 1).days(), 719_163);
    assert_eq!(mon.plus_days(6), Some(date(2026, 2, 15)));
    assert_eq!(mon.plus_days(-9), Some(date(2026, 1, 31)));
    assert_eq!(date(262142, 12, 31).plus_days(1), None);
    assert_eq!(Date::from_ymd(262143, 1, 1), None);
    assert_eq!(Date::from_ymd(2026, 4, 31), None);
}

#[test]
fn week_commencing_patterns() {
    assert_eq!(
        parse_week_commencing("Menu for w/c Monday 26th January 2026"),
        Some(date(2026, 1, 26))
    );
    assert_eq!(
        parse_week_commencing_from_pdf_text("Week Commencing Monday 2 February 2026"),
        Some(date(2026, 2, 2))
    );
    assert_eq!(
        parse_week_commencing_from_pdf_text("Cranbrook\nW/C Monday 9th FEBRUARY 2026\nBreakfast"),
        Some(date(2026, 2, 9))
    );
    assert_eq!(parse_week_commencing("Menu for w/c Thursday 31st April 2026"), None);
    assert_eq!(parse_week_commencing_from_pdf_text("Week Commencing Friday 31 April 2026"), None);
    assert_eq!(parse_week_commencing("Menu for w/c Monday 26th Janvier 2026"), None);
    assert_eq!(parse_week_commencing("Menu for W/C Monday 26th January 2026"), None);
    assert_eq!(parse_week_commencing("Spring menu"), None);
}

#[test]
fn captured_pieces_make_dates() {
    assert_eq!(date_from_captures("26", "January", "2026"), Some(date(2026, 1, 26)));
    assert_eq!(date_from_captures("29", "FEBRUARY", "2024"), Some(date(2024, 2, 29)));
    assert_eq!(date_from_captures("29", "february", "2025"), None);
    assert_eq!(date_from_captures("x", "march", "2025"), None);
    assert_eq!(month_from_name(&"december".to_string()), Some(12));
    assert_eq!(month_from_name(&"December".to_string()), None);
}

#[test]
fn choose_week_prefers_a_containing_week() {
    let weeks = [date(2026, 1, 26), date(2026, 2, 2), date(2026, 2, 9)];
    let today = date(2026, 1, 27);
    assert_eq!(
        choose_inferred_week_start(&weeks, date(2026, 2, 8), today),
        Some(date(2026, 2, 2))
    );
    assert_eq!(
        choose_inferred_week_start(&weeks, date(2026, 2, 9), today),
        Some(date(2026, 2, 9))
    );
    assert_eq!(
        choose_inferred_week_start(&weeks, date(2026, 1, 26), today),
        Some(date(2026, 1, 26))
    );
}

#[test]
fn choose_week_infers_from_today() {
    let weeks = [date(2026, 1, 26), date(2026, 2, 2)];
    let today = date(2026, 2, 3);
    // 29 days ahead: four whole weeks after the week of today, nearest is 2 February.
    assert_eq!(
        choose_inferred_week_start(&weeks, date(2026, 3, 4), today),
        Some(date(2026, 2, 2))
    );
    // 33 days back rounds down to five weeks: 29 December, nearest is 26 January.
    assert_eq!(
        choose_inferred_week_start(&weeks, date(2026, 1, 1), today),
        Some(date(2026, 1, 26))
    );
    assert_eq!(choose_inferred_week_start(&[], date(2026, 1, 1), today), None);
}

#[test]
fn choose_week_ties_go_to_the_earlier_candidate() {
    let weeks = [date(2026, 2, 9), date(2026, 1, 26)];
    // today is 7 days from both, and the requested date is today, in neither week.
    let today = date(2026, 2, 2);
    assert_eq!(
        choose_inferred_week_start(&weeks, date(2026, 2, 2), today),
        Some(date(2026, 2, 9))
    );
}

#[test]
fn menu_links_are_recognised() {
    assert!(is_menu_href("/wp-content/uploads/Menu-W1.PDF"));
    assert!(is_menu_href("https://example.org/files/lunch_menu.pdf"));
    assert!(!is_menu_href("/files/newsletter.pdf"));
    assert!(!is_menu_href("/menu/index.html"));
}

#[test]
fn periods_from_queries() {
    assert_eq!(Period::from_query("LUNCH"), Some(Period::Lunch));
    assert_eq!(Period::from_query("Breakfast"), Some(Period::Breakfast));
    assert_eq!(Period::from_name("brunch"), Some(Period::Brunch));
    assert_eq!(Period::from_name("Dinner"), None);
    assert_eq!(Period::from_query("supper"), None);
    assert_eq!(Period::Dinner.name(), "dinner");
}

fn week_text(tag: &str) -> String {
    [
        "LUNCH LUNCH LUNCH".to_string(),
        format!("{} mon", tag),
        format!(" {} tue", tag),
        format!(" {} wed", tag),
        format!(" {} thu", tag),
        format!(" {} fri", tag),
    ]
    .join("\n")
}

#[test]
fn meal_for_date_maps_by_weekday() {
    let menu = parse_weekly_menu(&week_text("A"), date(2026, 2, 9));
    assert_eq!(
        menu.meal_for_date(date(2026, 2, 10), Period::Lunch),
        Some("A tue".to_string())
    );
    // A Wednesday of a later, unpublished week.
    assert_eq!(
        menu.meal_for_date(date(2026, 3, 4), Period::Lunch),
        Some("A wed".to_string())
    );
    assert_eq!(menu.meal_for_date(date(2026, 3, 7), Period::Lunch), None);
    assert_eq!(menu.meal_for_date(date(2026, 3, 4), Period::Dinner), None);
}

#[test]
fn index_merges_weeks() {
    let mut index = MenuIndex::new();
    index.add_week(parse_weekly_menu(&week_text("A"), date(2026, 2, 9)));
    index.add_week(parse_weekly_menu(&week_text("B"), date(2026, 2, 16)));
    assert_eq!(index.get(date(2026, 2, 9), Period::Lunch), Some("A mon".to_string()));
    assert_eq!(index.get(date(2026, 2, 20), Period::Lunch), Some("B fri".to_string()));
    assert_eq!(index.get(date(2026, 2, 21), Period::Lunch), None);
    index.add_week(parse_weekly_menu(&week_text("C"), date(2026, 2, 9)));
    assert_eq!(index.get(date(2026, 2, 9), Period::Lunch), Some("C mon".to_string()));
}

#[test]
fn menu_anchors_are_selected_in_order() {
    let anchors: Vec<(String, String)> = [
        ("/uploads/Menu-A.pdf", "Menu for w/c Monday 2nd February 2026"),
        ("/news.html", "News"),
        ("/uploads/term-dates.pdf", "Term dates"),
        ("/uploads/MENU-B.PDF", "Next week"),
    ]
    .iter()
    .map(|(h, t)| (h.to_string(), t.to_string()))
    .collect();
    let kept = select_menu_anchors(&anchors);
    assert_eq!(kept, vec![anchors[0].clone(), anchors[3].clone()]);
    assert_eq!(parse_week_commencing(&kept[0].1), Some(date(2026, 2, 2)));
    assert!(select_menu_anchors(&[]).is_empty());
}

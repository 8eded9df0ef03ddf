use catering_menu::{
    fill_first_line_per_day, is_junk_line, parse_weekly_menu, split_blocks, Date, Period,
};

fn date(y: i32, m: u32, d: u32) -> Date {
    Date::from_ymd(y, m, d).unwrap()
}

fn strings(lines: &[&str]) -> Vec<String> {
    lines.iter().map(|l| l.to_string()).collect()
}

fn full_week_text() -> String {
    [
        "Cranbrook catering",
        "BREAKFAST BREAKFAST BREAKFAST BREAKFAST BREAKFAST",
        "Porridge",
        "\"",
        "Pancakes",
        "Scrambled eggs",
        "---",
        "Waffles",
        "Croissants",
        "Saturday Brunch",
        "Full English",
        "Sunday Brunch",
        "Bagels",
        "LUNCH LUNCH LUNCH LUNCH LUNCH",
        "Chicken curry",
        "Rice",
        " Fish pie",
        " Pasta bake",
        "Garlic bread",
        " Beef stew",
        " Veggie burger",
        "DINNER DINNER DINNER DINNER DINNER DINNER DINNER",
        "Soup",
        " Lasagne",
        " Roast chicken",
        "Gravy",
        " Tacos",
        " Pizza",
        " Stir fry",
        " Sausages",
    ]
    .join("\n")
}

#[test]
fn junk_lines_are_recognised() {
    assert!(is_junk_line("", ""));
    assert!(is_junk_line("---", "---"));
    assert!(is_junk_line("\"", "\""));
    assert!(is_junk_line("* . *", "* . *"));
    assert!(!is_junk_line("Soup", "soup"));
    assert!(!is_junk_line("7", "7"));
    assert!(!is_junk_line("Café", "café"));
}

#[test]
fn split_blocks_groups_indented_columns() {
    let lines = strings(&["Soup", "bread", " Fish", "chips", "", " Pie", "mash"]);
    let blocks = split_blocks(&lines, 3);
    assert_eq!(
        blocks,
        vec![
            vec!["Soup".to_string(), "bread".to_string()],
            vec!["Fish".to_string(), "chips".to_string()],
            vec!["Pie".to_string(), "mash".to_string()],
        ]
    );
}

#[test]
fn split_blocks_opens_blocks_on_any_leading_whitespace() {
    let lines = strings(&["Soup", "\tPie"]);
    assert_eq!(
        split_blocks(&lines, 2),
        vec![vec!["Soup".to_string()], vec!["Pie".to_string()]]
    );
    let lines = strings(&["Soup", "\u{a0}Pie", "\u{3000}Stew"]);
    assert_eq!(
        split_blocks(&lines, 3),
        vec![
            vec!["Soup".to_string()],
            vec!["Pie".to_string()],
            vec!["Stew".to_string()]
        ]
    );
}

#[test]
fn split_blocks_ignores_junk_between_groups() {
    let lines = strings(&["", "Soup", "---", "bread", "   ", " Fish", "\"", "chips", "", " Pie"]);
    assert_eq!(
        split_blocks(&lines, 3),
        vec![
            vec!["Soup".to_string(), "bread".to_string()],
            vec!["Fish".to_string(), "chips".to_string()],
            vec!["Pie".to_string()],
        ]
    );
}

#[test]
fn split_blocks_caps_the_number_of_blocks() {
    let lines = strings(&[" a", " b", " c", " d"]);
    let blocks = split_blocks(&lines, 2);
    assert_eq!(
        blocks,
        vec![
            vec!["a".to_string()],
            vec!["b".to_string(), "c".to_string(), "d".to_string()],
        ]
    );
}

#[test]
fn split_blocks_on_empty_input() {
    let blocks = split_blocks(&[], 5);
    assert!(blocks.is_empty());
    let only_junk = strings(&["", "  ", "---"]);
    assert!(split_blocks(&only_junk, 5).is_empty());
}

#[test]
fn fallback_takes_one_content_line_per_day() {
    let lines = strings(&["", "  Soup  ", "---", "Pie", "\"", "Stew", "Curry"]);
    assert_eq!(
        fill_first_line_per_day(&lines, 2),
        vec!["Soup".to_string(), "Pie".to_string()]
    );
    assert_eq!(
        fill_first_line_per_day(&lines, 7),
        vec![
            "Soup".to_string(),
            "Pie".to_string(),
            "Stew".to_string(),
            "Curry".to_string()
        ]
    );
    assert!(fill_first_line_per_day(&lines, 0).is_empty());
}

#[test]
fn end_to_end_week_has_nineteen_entries() {
    let ws = date(2026, 2, 9);
    let menu = parse_weekly_menu(&full_week_text(), ws);
    let entries = menu.entries();
    assert_eq!(entries.len(), 19);
    let mut keys: Vec<String> = entries.iter().map(|e| e.key()).collect();
    keys.sort();
    let mut expected: Vec<String> = Vec::new();
    for d in 9..=13 {
        expected.push(format!("2026-02-{:02}-breakfast", d));
        expected.push(format!("2026-02-{:02}-lunch", d));
    }
    for d in 9..=15 {
        expected.push(format!("2026-02-{:02}-dinner", d));
    }
    expected.push("2026-02-14-brunch".to_string());
    expected.push("2026-02-15-brunch".to_string());
    expected.sort();
    assert_eq!(keys, expected);

    assert_eq!(
        menu.breakfast,
        vec!["Porridge", "Pancakes", "Scrambled eggs", "Waffles", "Croissants"]
    );
    assert_eq!(menu.get(date(2026, 2, 14), Period::Brunch), Some("Brunch buffet available".to_string()));
    assert_eq!(menu.get(date(2026, 2, 15), Period::Brunch), Some("Brunch buffet available".to_string()));
    assert_eq!(
        menu.lunch,
        vec!["Chicken curry\nRice", "Fish pie", "Pasta bake\nGarlic bread", "Beef stew", "Veggie burger"]
    );
    assert_eq!(
        menu.dinner,
        vec!["Soup", "Lasagne", "Roast chicken\nGravy", "Tacos", "Pizza", "Stir fry", "Sausages"]
    );
    assert_eq!(menu.get(date(2026, 2, 11), Period::Lunch), Some("Pasta bake\nGarlic bread".to_string()));
}

#[test]
fn parsing_twice_gives_the_same_menu() {
    let ws = date(2026, 2, 9);
    let a = parse_weekly_menu(&full_week_text(), ws);
    let b = parse_weekly_menu(&full_week_text(), ws);
    assert_eq!(a.breakfast, b.breakfast);
    assert_eq!(a.lunch, b.lunch);
    assert_eq!(a.dinner, b.dinner);
    assert_eq!(a.brunch_saturday, b.brunch_saturday);
    assert_eq!(a.brunch_sunday, b.brunch_sunday);
    let ka: Vec<(String, String)> = a.entries().iter().map(|e| (e.key(), e.text.clone())).collect();
    let kb: Vec<(String, String)> = b.entries().iter().map(|e| (e.key(), e.text.clone())).collect();
    assert_eq!(ka, kb);
}

#[test]
fn lunch_header_line_is_not_lunch_content() {
    let text = [
        "Lunch lunch LUNCH lunch lunch",
        "Soup",
        " Pie",
        " Stew",
        " Curry",
        " Salad",
    ]
    .join("\n");
    let menu = parse_weekly_menu(&text, date(2026, 2, 9));
    assert_eq!(menu.lunch, vec!["Soup", "Pie", "Stew", "Curry", "Salad"]);
    assert!(menu.breakfast.is_empty());
    assert!(menu.dinner.is_empty());
}

#[test]
fn lunch_with_four_groups_falls_back_to_single_lines() {
    let text = [
        "LUNCH LUNCH LUNCH LUNCH LUNCH",
        "Chicken curry",
        "Rice",
        " Fish pie",
        "Peas",
        " Pasta bake",
        " Beef stew",
    ]
    .join("\n");
    let menu = parse_weekly_menu(&text, date(2026, 2, 9));
    assert_eq!(
        menu.lunch,
        vec!["Chicken curry", "Rice", "Fish pie", "Peas", "Pasta bake"]
    );
    assert!(menu.lunch.iter().all(|t| !t.contains('\n')));
}

#[test]
fn dinner_with_too_many_groups_keeps_seven_blocks() {
    let mut lines = vec!["DINNER DINNER DINNER".to_string()];
    for i in 0..9 {
        lines.push(format!(" Dish {}", i));
    }
    let menu = parse_weekly_menu(&lines.join("\n"), date(2026, 2, 9));
    assert_eq!(menu.dinner.len(), 7);
    assert_eq!(menu.dinner[6], "Dish 6\nDish 7\nDish 8");
}

#[test]
fn header_lines_never_become_content() {
    let text = [
        "Breakfast Breakfast Breakfast",
        "Toast",
        "LUNCH LUNCH LUNCH",
        "\tSoup",
        " Pie",
        "lunch Lunch LUNCH lunch",
        " Stew",
        " Curry",
        " Salad",
        "Dinner dinner dinner",
        "Fish",
    ]
    .join("\n");
    let menu = parse_weekly_menu(&text, date(2026, 2, 9));
    assert_eq!(menu.breakfast, vec!["Toast"]);
    assert_eq!(menu.lunch, vec!["Soup", "Pie", "Stew", "Curry", "Salad"]);
    assert_eq!(menu.dinner, vec!["Fish"]);
    for t in menu.lunch.iter().chain(menu.dinner.iter()).chain(menu.breakfast.iter()) {
        for line in t.split('\n') {
            let l = line.to_lowercase();
            assert!(l.matches("lunch").count() < 3 && l.matches("dinner").count() < 3);
            assert!(l.matches("breakfast").count() < 3 && !l.contains("brunch"));
        }
    }
}

#[test]
fn lines_before_any_header_are_discarded() {
    let text = ["Welcome", "Soup", "breakfast breakfast breakfast", "Toast"].join("\n");
    let menu = parse_weekly_menu(&text, date(2026, 2, 9));
    assert_eq!(menu.breakfast, vec!["Toast"]);
    assert!(!menu.brunch_saturday);
    assert!(!menu.brunch_sunday);
}

#[test]
fn third_brunch_header_returns_to_saturday() {
    let text = ["Brunch", "Brunch", "Brunch", "Eggs"].join("\n");
    let menu = parse_weekly_menu(&text, date(2026, 2, 9));
    assert!(menu.brunch_saturday);
    assert!(!menu.brunch_sunday);
}

#[test]
fn breakfast_keeps_first_five_lines_only() {
    let text = ["Breakfast Breakfast Breakfast", "a", "b", "c", "d", "e", "f"].join("\n");
    let menu = parse_weekly_menu(&text, date(2026, 2, 9));
    assert_eq!(menu.breakfast, vec!["a", "b", "c", "d", "e"]);
}

#[test]
fn empty_text_gives_empty_menu() {
    let menu = parse_weekly_menu("", date(2026, 2, 9));
    assert!(menu.entries().is_empty());
}

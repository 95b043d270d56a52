use orbit::catalog::AppEntry;
use orbit::launcher::Launcher;
use orbit::search::Search;

fn app(name: &str) -> AppEntry {
    AppEntry { name: name.to_string(), path: format!("/Applications/{}.app", name) }
}

fn catalog() -> Vec<AppEntry> {
    vec![app("Calculator"), app("Calendar"), app("Notes"), app("Safari"), app("Terminal")]
}

#[test]
fn blank_query_lists_every_app_in_order() {
    let mut search = Search::new();
    let apps = catalog();
    assert_eq!(search.filter("", &apps), vec![0, 1, 2, 3, 4]);
    assert_eq!(search.filter("  \t", &apps), vec![0, 1, 2, 3, 4]);
    assert_eq!(search.filter("\u{a0}\u{3000}", &apps), vec![0, 1, 2, 3, 4]);
}

#[test]
fn query_keeps_only_matches() {
    let mut search = Search::new();
    let apps = catalog();
    assert_eq!(search.filter("safari", &apps), vec![3]);
    assert_eq!(search.filter("xyzzy", &apps), Vec::<usize>::new());
    let cal = search.filter("cal", &apps);
    assert_eq!(cal.len(), 2);
    assert!(cal.contains(&0) && cal.contains(&1));
}

#[test]
fn matching_is_case_insensitive() {
    let mut search = Search::new();
    let apps = catalog();
    assert_eq!(search.filter("NOTES", &apps), vec![2]);
}

#[test]
fn equal_scores_are_ordered_by_name_then_position() {
    let mut search = Search::new();
    let apps = vec![app("Notes"), app("Abc Notes"), app("Notes")];
    let r = search.filter("zzz", &apps);
    assert!(r.is_empty());
    // Identical names score the same: the earlier one comes first.
    let apps = vec![app("Notes"), app("Notes")];
    assert_eq!(search.filter("notes", &apps), vec![0, 1]);
}

#[test]
fn better_match_comes_first() {
    let mut search = Search::new();
    let apps = vec![app("Xylo Safe Area Forge Independent"), app("Safari")];
    assert_eq!(search.filter("safari", &apps)[0], 1);
}

#[test]
fn new_launcher_is_empty() {
    let l = Launcher::default();
    assert_eq!(l.result_count(), 0);
    assert_eq!(l.selected(), 0);
    assert!(l.entry(0).is_none());
    assert!(l.query.is_empty());
}

#[test]
fn set_apps_lists_all_for_empty_query() {
    let mut l = Launcher::new();
    l.set_apps(catalog());
    assert_eq!(l.result_count(), 5);
    assert_eq!(l.entry(0).unwrap().name, "Calculator");
    assert_eq!(l.entry(4).unwrap().name, "Terminal");
    assert!(l.entry(5).is_none());
}

#[test]
fn selection_moves_within_results() {
    let mut l = Launcher::new();
    l.set_apps(catalog());
    l.select_prev();
    assert_eq!(l.selected(), 0);
    for _ in 0..10 {
        l.select_next();
    }
    assert_eq!(l.selected(), 4);
    l.select_prev();
    assert_eq!(l.selected(), 3);
    l.select_next();
    assert_eq!(l.selected(), 4);
}

#[test]
fn next_then_prev_returns() {
    let mut l = Launcher::new();
    l.set_apps(catalog());
    l.select_next();
    l.select_next();
    l.select_prev();
    assert_eq!(l.selected(), 1);
}

#[test]
fn editing_the_query_selects_the_first_result() {
    let mut l = Launcher::new();
    l.set_apps(catalog());
    l.select_next();
    l.select_next();
    l.query = "safari".to_string();
    l.on_query_edited();
    assert_eq!(l.selected(), 0);
    assert_eq!(l.result_count(), 1);
    assert_eq!(l.entry(0).unwrap().name, "Safari");
}

#[test]
fn reset_clears_the_query() {
    let mut l = Launcher::new();
    l.set_apps(catalog());
    l.query = "notes".to_string();
    l.on_query_edited();
    assert_eq!(l.result_count(), 1);
    l.reset();
    assert!(l.query.is_empty());
    assert_eq!(l.result_count(), 5);
    assert_eq!(l.selected(), 0);
}

#[test]
fn shorter_catalog_clamps_the_selection() {
    let mut l = Launcher::new();
    l.set_apps(catalog());
    for _ in 0..4 {
        l.select_next();
    }
    assert_eq!(l.selected(), 4);
    l.set_apps(vec![app("Notes"), app("Safari")]);
    assert_eq!(l.selected(), 1);
    l.set_apps(Vec::new());
    assert_eq!(l.selected(), 0);
    assert_eq!(l.result_count(), 0);
    l.set_apps(catalog());
    assert_eq!(l.selected(), 0);
}

#[test]
fn selection_survives_a_longer_catalog() {
    let mut l = Launcher::new();
    l.set_apps(catalog());
    l.select_next();
    l.select_next();
    let mut more = catalog();
    more.push(app("Xcode"));
    l.set_apps(more);
    assert_eq!(l.selected(), 2);
}

#[test]
fn ascii_case_does_not_change_the_results() {
    let mut search = Search::new();
    let apps = catalog();
    for query in ["cal", "Cal", "nOtEs", "term", "s"] {
        let plain = search.filter(query, &apps);
        assert_eq!(search.filter(&query.to_ascii_uppercase(), &apps), plain);
        assert_eq!(search.filter(&query.to_ascii_lowercase(), &apps), plain);
    }
}

#[test]
fn scanning_until_the_first_catalog_arrives() {
    let mut l = Launcher::new();
    assert!(l.is_scanning());
    l.query.push_str("x");
    l.on_query_edited();
    assert!(l.is_scanning());
    l.set_apps(Vec::new());
    assert!(!l.is_scanning());
    assert_eq!(l.result_count(), 0);
    l.set_apps(catalog());
    assert!(!l.is_scanning());
}

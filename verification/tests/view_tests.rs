use orbit::catalog::AppEntry;
use orbit::launcher::Launcher;
use orbit::view::{intent_for, row_background, Intent, RowShade, ViewState};

#[test]
fn clicked_row_wins() {
    assert_eq!(intent_for(Some(3), true, true, 1), Some(Intent::Launch(3)));
}

#[test]
fn enter_launches_the_selection() {
    assert_eq!(intent_for(None, true, true, 1), Some(Intent::Launch(1)));
}

#[test]
fn escape_dismisses() {
    assert_eq!(intent_for(None, false, true, 1), Some(Intent::Dismiss));
    assert_eq!(intent_for(None, false, false, 1), None);
}

#[test]
fn row_shades() {
    assert_eq!(row_background(true, false), Some(RowShade::Selected));
    assert_eq!(row_background(true, true), Some(RowShade::Selected));
    assert_eq!(row_background(false, true), Some(RowShade::Hovered));
    assert_eq!(row_background(false, false), None);
}

#[test]
fn focus_is_requested_once_per_show() {
    let mut v = ViewState::new();
    assert!(v.claim_focus(false));
    assert!(!v.claim_focus(false));
    v.focus_query();
    assert!(!v.claim_focus(true));
    assert!(!v.claim_focus(false));
}

#[test]
fn navigation_sets_scroll_until_a_pass_survives() {
    let mut l = Launcher::new();
    l.set_apps(vec![
        AppEntry { name: "A".to_string(), path: "/a.app".to_string() },
        AppEntry { name: "B".to_string(), path: "/b.app".to_string() },
    ]);
    let mut v = ViewState::new();
    v.navigate(&mut l, false, true);
    assert_eq!(l.selected(), 1);
    assert!(v.scroll_pending);
    v.end_pass(true);
    assert!(v.scroll_pending);
    v.end_pass(false);
    assert!(!v.scroll_pending);
    v.navigate(&mut l, true, true);
    assert_eq!(l.selected(), 0);
    v.navigate(&mut l, false, false);
    assert_eq!(l.selected(), 0);
}

#[test]
fn editing_scrolls_to_the_first_result() {
    let mut l = Launcher::new();
    l.set_apps(vec![
        AppEntry { name: "A".to_string(), path: "/a.app".to_string() },
        AppEntry { name: "B".to_string(), path: "/b.app".to_string() },
    ]);
    l.select_next();
    let mut v = ViewState::new();
    l.query = "b".to_string();
    v.query_edited(&mut l);
    assert_eq!(l.selected(), 0);
    assert!(v.scroll_pending);
    assert_eq!(l.entry(0).unwrap().name, "B");
}

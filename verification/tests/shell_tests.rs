use orbit::catalog::AppEntry;
use orbit::launcher::Launcher;
use orbit::shell::{Effect, Request, Shell};
use orbit::window::{Step, Window};

fn launcher() -> Launcher {
    let mut l = Launcher::new();
    l.set_apps(vec![
        AppEntry { name: "Notes".to_string(), path: "/System/Applications/Notes.app".to_string() },
        AppEntry { name: "Safari".to_string(), path: "/Applications/Safari.app".to_string() },
    ]);
    l
}

#[test]
fn starts_activating() {
    let s = Shell::new();
    assert_eq!(s.window, Window::Activating { frames: 0 });
    assert_eq!(s.last_activation_frame, None);
}

#[test]
fn toggle_twice_hides_then_shows() {
    let mut s = Shell::new();
    let mut l = launcher();
    assert_eq!(s.handle(&mut l, Request::Toggle), Effect::Hide);
    assert_eq!(s.window, Window::Hidden);
    assert_eq!(s.handle(&mut l, Request::Toggle), Effect::Show);
    assert_eq!(s.window, Window::Activating { frames: 0 });
}

#[test]
fn show_when_visible_does_nothing() {
    let mut s = Shell::new();
    let mut l = launcher();
    assert_eq!(s.handle(&mut l, Request::Show), Effect::Nothing);
    s.hide_window();
    assert_eq!(s.handle(&mut l, Request::Show), Effect::Show);
}

#[test]
fn showing_resets_the_query_and_selection() {
    let mut s = Shell::new();
    let mut l = launcher();
    s.hide_window();
    l.query = "saf".to_string();
    l.on_query_edited();
    l.select_next();
    assert_eq!(s.set_visible(&mut l, true), Effect::Show);
    assert!(l.query.is_empty());
    assert_eq!(l.selected(), 0);
    assert_eq!(l.result_count(), 2);
}

#[test]
fn other_requests_pass_through() {
    let mut s = Shell::new();
    let mut l = launcher();
    assert_eq!(s.handle(&mut l, Request::Rescan), Effect::Rescan);
    assert_eq!(s.handle(&mut l, Request::ToggleLogin), Effect::ToggleLogin);
    assert_eq!(s.window, Window::Activating { frames: 0 });
}

#[test]
fn a_frame_counts_once() {
    let mut s = Shell::new();
    assert_eq!(s.update_activation(7, None), Some(Step::Settle { activate: false }));
    assert_eq!(s.update_activation(7, None), None);
    assert_eq!(s.window, Window::Activating { frames: 1 });
    assert_eq!(s.update_activation(8, None), Some(Step::Settle { activate: true }));
}

#[test]
fn focus_loss_after_activation_hides() {
    let mut s = Shell::new();
    assert_eq!(s.update_activation(1, Some(true)), Some(Step::Idle));
    assert_eq!(s.window, Window::Interactive);
    assert_eq!(s.update_activation(2, Some(false)), Some(Step::Dismiss));
    assert_eq!(s.window, Window::Hidden);
}

#[test]
fn launching_a_row_hides_and_returns_its_path() {
    let mut s = Shell::new();
    let l = launcher();
    assert_eq!(s.launch(&l, 1).as_deref(), Some("/Applications/Safari.app"));
    assert_eq!(s.window, Window::Hidden);
}

#[test]
fn launching_a_missing_row_does_nothing() {
    let mut s = Shell::new();
    let l = launcher();
    assert_eq!(s.launch(&l, 2), None);
    assert_eq!(s.window, Window::Activating { frames: 0 });
}

#[test]
fn summoning_space_is_dropped_right_after_show() {
    let mut s = Shell::new();
    assert!(s.drops_text(" "));
    assert!(s.drops_text("\u{a0}"));
    assert!(!s.drops_text("a"));
    assert!(!s.drops_text("  "));
    s.window = Window::Interactive;
    assert!(!s.drops_text(" "));
}

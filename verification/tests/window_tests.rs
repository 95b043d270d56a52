use orbit::window::{interactive_step, Step, Window};

#[test]
fn hidden_window_stays_hidden() {
    for focused in [None, Some(true), Some(false)] {
        let mut w = Window::Hidden;
        assert_eq!(w.advance(focused), Step::Idle);
        assert_eq!(w, Window::Hidden);
    }
}

#[test]
fn focus_ends_activation() {
    let mut w = Window::Activating { frames: 3 };
    assert_eq!(w.advance(Some(true)), Step::Idle);
    assert_eq!(w, Window::Interactive);
}

#[test]
fn activation_asks_to_activate_on_second_frame_only() {
    let mut w = Window::Activating { frames: 0 };
    assert_eq!(w.advance(None), Step::Settle { activate: false });
    assert_eq!(w, Window::Activating { frames: 1 });
    assert_eq!(w.advance(Some(false)), Step::Settle { activate: true });
    assert_eq!(w, Window::Activating { frames: 2 });
    assert_eq!(w.advance(None), Step::Settle { activate: false });
    assert_eq!(w.advance(None), Step::Settle { activate: false });
    assert_eq!(w.advance(None), Step::Settle { activate: false });
    assert_eq!(w, Window::Activating { frames: 5 });
}

#[test]
fn activation_times_out_into_interactive() {
    let mut w = Window::Activating { frames: 5 };
    assert_eq!(w.advance(None), Step::Idle);
    assert_eq!(w, Window::Interactive);
    let mut w = Window::Activating { frames: 5 };
    assert_eq!(w.advance(Some(false)), Step::Dismiss);
    assert_eq!(w, Window::Interactive);
}

#[test]
fn activation_settles_within_six_unfocused_frames() {
    let mut w = Window::Activating { frames: 0 };
    for _ in 0..6 {
        w.advance(Some(false));
    }
    assert_eq!(w, Window::Interactive);
}

#[test]
fn interactive_window_dismisses_on_focus_loss() {
    let mut w = Window::Interactive;
    assert_eq!(w.advance(Some(false)), Step::Dismiss);
    assert_eq!(w, Window::Interactive);
    assert_eq!(w.advance(None), Step::Idle);
    assert_eq!(w.advance(Some(true)), Step::Idle);
}

#[test]
fn interactive_step_values() {
    assert_eq!(interactive_step(Some(false)), Step::Dismiss);
    assert_eq!(interactive_step(Some(true)), Step::Idle);
    assert_eq!(interactive_step(None), Step::Idle);
}

#[test]
fn visibility_and_just_shown() {
    assert!(!Window::Hidden.is_visible());
    assert!(Window::Interactive.is_visible());
    assert!(Window::Activating { frames: 4 }.is_visible());
    assert!(Window::Activating { frames: 0 }.just_shown());
    assert!(Window::Activating { frames: 1 }.just_shown());
    assert!(!Window::Activating { frames: 2 }.just_shown());
    assert!(!Window::Interactive.just_shown());
    assert!(!Window::Hidden.just_shown());
}

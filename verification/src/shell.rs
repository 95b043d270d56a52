//! The decisions of the application around the launcher: showing and hiding
//! the window, answering requests, counting activation frames, launching.
//!
//! Each method changes the state and returns what the caller must do outside
//! it (talk to the window system, the OS, the scanner).

use vstd::prelude::*;

use crate::launcher::Launcher;
use crate::window::{Window, Step, is_visible_spec, just_shown_spec, window_after, step_after};

verus! {

/// A request sent to the application from outside its window (the global
/// hotkey, the menu bar item).
#[derive(Debug, PartialEq, Eq, Structural)]
pub enum Request {
    Toggle,
    Show,
    Rescan,
    ToggleLogin,
}

/// What the caller must do after the state changed.
#[derive(Debug, PartialEq, Eq, Structural)]
pub enum Effect {
    /// Nothing.
    Nothing,
    /// The window was shown: make it visible and focused, focus the query box,
    /// rescan if the catalog is stale.
    Show,
    /// The window was hidden: make it invisible and hide the app.
    Hide,
    /// Rescan the applications now.
    Rescan,
    /// Flip the start-at-login setting.
    ToggleLogin,
}

/// The window's lifecycle state and the last frame that advanced it.
pub struct Shell {
    pub window: Window,
    pub last_activation_frame: Option<u64>,
}

/// The effect of asking for the window to be visible or not.
pub open spec fn visibility_effect(was_visible: bool, visible: bool) -> Effect {
    if !was_visible && visible {
        Effect::Show
    } else if was_visible && !visible {
        Effect::Hide
    } else {
        Effect::Nothing
    }
}

/// The effect of a request on a window whose visibility is `visible`.
pub open spec fn request_effect(visible: bool, request: Request) -> Effect {
    match request {
        Request::Toggle => visibility_effect(visible, !visible),
        Request::Show => visibility_effect(visible, true),
        Request::Rescan => Effect::Rescan,
        Request::ToggleLogin => Effect::ToggleLogin,
    }
}

/// The window state after an effect.
pub open spec fn window_for(effect: Effect, w: Window) -> Window {
    match effect {
        Effect::Show => Window::Activating { frames: 0 },
        Effect::Hide => Window::Hidden,
        _ => w,
    }
}

impl Shell {
    /// The state at start-up: the window is shown and activating.
    pub fn new() -> (s: Shell)
        ensures
            s.window == (Window::Activating { frames: 0 }),
            s.last_activation_frame is None,
    {
        Shell { window: Window::Activating { frames: 0 }, last_activation_frame: None }
    }

    /// Shows the window: activation starts over, the query is cleared and the
    /// first row selected.
    pub fn show(&mut self, launcher: &mut Launcher)
        requires
            old(launcher).wf(),
        ensures
            final(self).window == (Window::Activating { frames: 0 }),
            final(self).last_activation_frame == old(self).last_activation_frame,
            final(launcher).wf(),
            final(launcher).apps_view() == old(launcher).apps_view(),
            final(launcher).query_view().len() == 0,
            final(launcher).results_view() == Seq::new(
                old(launcher).apps_view().len(),
                |i: int| i as usize,
            ),
            final(launcher).selection() == 0,
    {
        self.window = Window::Activating { frames: 0 };
        launcher.reset();
    }

    /// Hides the window.
    pub fn hide_window(&mut self)
        ensures
            final(self).window == Window::Hidden,
            final(self).last_activation_frame == old(self).last_activation_frame,
    {
        self.window = Window::Hidden;
    }

    /// Makes the window visible or not; returns what changed.
    pub fn set_visible(&mut self, launcher: &mut Launcher, visible: bool) -> (effect: Effect)
        requires
            old(launcher).wf(),
        ensures
            effect == visibility_effect(is_visible_spec(old(self).window), visible),
            final(self).window == window_for(effect, old(self).window),
            final(self).last_activation_frame == old(self).last_activation_frame,
            final(launcher).wf(),
            final(launcher).apps_view() == old(launcher).apps_view(),
            effect == Effect::Show ==> {
                &&& final(launcher).query_view().len() == 0
                &&& final(launcher).results_view() == Seq::new(
                    old(launcher).apps_view().len(),
                    |i: int| i as usize,
                )
                &&& final(launcher).selection() == 0
            },
            effect != Effect::Show ==> *final(launcher) == *old(launcher),
    {
        let was_visible = self.window.is_visible();
        if !was_visible && visible {
            self.show(launcher);
            Effect::Show
        } else if was_visible && !visible {
            self.hide_window();
            Effect::Hide
        } else {
            Effect::Nothing
        }
    }

    /// Answers a request.
    pub fn handle(&mut self, launcher: &mut Launcher, request: Request) -> (effect: Effect)
        requires
            old(launcher).wf(),
        ensures
            effect == request_effect(is_visible_spec(old(self).window), request),
            final(self).window == window_for(effect, old(self).window),
            final(self).last_activation_frame == old(self).last_activation_frame,
            final(launcher).wf(),
            final(launcher).apps_view() == old(launcher).apps_view(),
            effect == Effect::Show ==> {
                &&& final(launcher).query_view().len() == 0
                &&& final(launcher).results_view() == Seq::new(
                    old(launcher).apps_view().len(),
                    |i: int| i as usize,
                )
                &&& final(launcher).selection() == 0
            },
            effect != Effect::Show ==> *final(launcher) == *old(launcher),
    {
        match request {
            Request::Toggle => {
                let visible = self.window.is_visible();
                self.set_visible(launcher, !visible)
            },
            Request::Show => self.set_visible(launcher, true),
            Request::Rescan => Effect::Rescan,
            Request::ToggleLogin => Effect::ToggleLogin,
        }
    }

    /// Advances the window by the frame numbered `frame`, whose focus report
    /// is `focused`. Layout passes repeat a frame; it counts once. Returns
    /// none for a repeated frame, else the step taken; after a dismissal the
    /// window is hidden.
    pub fn update_activation(&mut self, frame: u64, focused: Option<bool>) -> (step: Option<Step>)
        ensures
            old(self).last_activation_frame == Some(frame) ==> step is None && *final(self)
                == *old(self),
            old(self).last_activation_frame != Some(frame) ==> {
                &&& step == Some(step_after(old(self).window, focused))
                &&& final(self).last_activation_frame == Some(frame)
                &&& final(self).window == if step_after(old(self).window, focused)
                    == Step::Dismiss {
                    Window::Hidden
                } else {
                    window_after(old(self).window, focused)
                }
            },
    {
        if self.last_activation_frame == Some(frame) {
            return None;
        }
        self.last_activation_frame = Some(frame);
        let step = self.window.advance(focused);
        if step == Step::Dismiss {
            self.hide_window();
        }
        Some(step)
    }

    /// Launches the app on `row`: returns its bundle path and hides the
    /// window, or does nothing when there is no such row.
    pub fn launch(&mut self, launcher: &Launcher, row: usize) -> (path: Option<String>)
        requires
            launcher.wf(),
        ensures
            row < launcher.results_view().len() ==> {
                &&& path == Some(
                    launcher.apps_view()[launcher.results_view()[row as int] as int].path,
                )
                &&& final(self).window == Window::Hidden
            },
            row >= launcher.results_view().len() ==> path is None && *final(self) == *old(self),
            final(self).last_activation_frame == old(self).last_activation_frame,
    {
        match launcher.entry(row) {
            Some(entry) => {
                let path = entry.path.clone();
                self.hide_window();
                Some(path)
            },
            None => None,
        }
    }

    /// Whether a typed text event must be dropped: the hotkey that summons
    /// the window is space-based, so right after a show a typed space (or
    /// no-break space) is the summoning keystroke, not part of a query.
    pub fn drops_text(&self, text: &str) -> (drop: bool)
        ensures
            drop == (just_shown_spec(self.window) && (text@ == " "@ || text@ == "\u{a0}"@)),
    {
        self.window.just_shown() && (crate::text::same_text(text, " ") || crate::text::same_text(
            text,
            "\u{a0}",
        ))
    }
}

/// Toggling twice brings the window back to the visibility it had: one
/// toggle shows it and the other hides it.
pub proof fn lemma_toggle_twice(w: Window)
    ensures
        ({
            let e1 = request_effect(is_visible_spec(w), Request::Toggle);
            let w1 = window_for(e1, w);
            let e2 = request_effect(is_visible_spec(w1), Request::Toggle);
            let w2 = window_for(e2, w1);
            &&& is_visible_spec(w2) == is_visible_spec(w)
            &&& (e1 == Effect::Show && e2 == Effect::Hide || e1 == Effect::Hide && e2 == Effect::Show)
        }),
{
}

/// The window after `n` toggle requests.
pub open spec fn window_after_toggles(w: Window, n: nat) -> Window
    decreases n,
{
    if n == 0 {
        w
    } else {
        window_after_toggles(
            window_for(request_effect(is_visible_spec(w), Request::Toggle), w),
            (n - 1) as nat,
        )
    }
}

/// An odd number of toggles flips the window's visibility; an even number
/// leaves it as it was.
pub proof fn lemma_toggle_parity(w: Window, n: nat)
    ensures
        is_visible_spec(window_after_toggles(w, n)) == if n % 2 == 0 {
            is_visible_spec(w)
        } else {
            !is_visible_spec(w)
        },
    decreases n,
{
    if n > 0 {
        let w1 = window_for(request_effect(is_visible_spec(w), Request::Toggle), w);
        lemma_toggle_parity(w1, (n - 1) as nat);
    }
}

/// Asking to show a window that is already visible does nothing.
pub proof fn lemma_show_when_visible(w: Window)
    requires
        is_visible_spec(w),
    ensures
        request_effect(true, Request::Show) == Effect::Nothing,
        window_for(request_effect(true, Request::Show), w) == w,
{
}

/// Every request leaves the window visible exactly when it asks for it:
/// toggling flips visibility, showing makes it visible, the others keep it.
pub proof fn lemma_request_visibility(w: Window, request: Request)
    ensures
        is_visible_spec(window_for(request_effect(is_visible_spec(w), request), w)) == match request {
            Request::Toggle => !is_visible_spec(w),
            Request::Show => true,
            _ => is_visible_spec(w),
        },
{
}

} // verus!

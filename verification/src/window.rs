//! Launcher window lifecycle: show -> activate -> settle.
//!
//! The window is not focusable for a frame after it is made visible, and it
//! may report spurious unfocused frames before activation completes:
//!
//!   Hidden -> Activating (waiting for focus) -> Interactive (focus loss now
//!   means the user clicked away)

use vstd::prelude::*;

verus! {

/// Frame of the activation phase on which the app asks to be activated.
pub const ACTIVATE_DELAY_FRAMES: u32 = 1;

/// Number of unfocused frames after which activation gives up waiting.
pub const ACTIVATION_TIMEOUT_FRAMES: u32 = 5;

#[derive(Debug, PartialEq, Eq, Structural)]
pub enum Window {
    Hidden,
    Activating { frames: u32 },
    Interactive,
}

#[derive(Debug, PartialEq, Eq, Structural)]
pub enum Step {
    Idle,
    Settle { activate: bool },
    Dismiss,
}

/// The step taken by a window that is already interactive.
pub open spec fn interactive_step_spec(focused: Option<bool>) -> Step {
    if focused == Some(false) {
        Step::Dismiss
    } else {
        Step::Idle
    }
}

/// The state a window moves to when a frame with focus report `focused` passes.
pub open spec fn window_after(w: Window, focused: Option<bool>) -> Window {
    match w {
        Window::Hidden => Window::Hidden,
        Window::Activating { frames } => {
            if focused == Some(true) || frames >= ACTIVATION_TIMEOUT_FRAMES {
                Window::Interactive
            } else {
                Window::Activating { frames: (frames + 1) as u32 }
            }
        },
        Window::Interactive => Window::Interactive,
    }
}

/// The step reported when a frame with focus report `focused` passes.
pub open spec fn step_after(w: Window, focused: Option<bool>) -> Step {
    match w {
        Window::Hidden => Step::Idle,
        Window::Activating { frames } => {
            if focused == Some(true) {
                Step::Idle
            } else if frames >= ACTIVATION_TIMEOUT_FRAMES {
                interactive_step_spec(focused)
            } else {
                Step::Settle { activate: frames == ACTIVATE_DELAY_FRAMES }
            }
        },
        Window::Interactive => interactive_step_spec(focused),
    }
}

pub open spec fn is_visible_spec(w: Window) -> bool {
    !(w is Hidden)
}

pub open spec fn just_shown_spec(w: Window) -> bool {
    w matches Window::Activating { frames } && frames <= 1
}

impl Window {
    pub fn advance(&mut self, focused: Option<bool>) -> (step: Step)
        ensures
            *final(self) == window_after(*old(self), focused),
            step == step_after(*old(self), focused),
    {
        match *self {
            Window::Hidden => Step::Idle,
            Window::Activating { frames } => {
                if focused == Some(true) {
                    *self = Window::Interactive;
                    Step::Idle
                } else if frames >= ACTIVATION_TIMEOUT_FRAMES {
                    *self = Window::Interactive;
                    interactive_step(focused)
                } else {
                    *self = Window::Activating { frames: frames + 1 };
                    Step::Settle { activate: frames == ACTIVATE_DELAY_FRAMES }
                }
            },
            Window::Interactive => interactive_step(focused),
        }
    }

    pub fn is_visible(&self) -> (visible: bool)
        ensures
            visible == is_visible_spec(*self),
    {
        !matches!(self, Window::Hidden)
    }

    pub fn just_shown(&self) -> (shown: bool)
        ensures
            shown == just_shown_spec(*self),
    {
        match self {
            Window::Activating { frames } => *frames <= 1,
            _ => false,
        }
    }
}

pub fn interactive_step(focused: Option<bool>) -> (step: Step)
    ensures
        step == interactive_step_spec(focused),
{
    if focused == Some(false) {
        Step::Dismiss
    } else {
        Step::Idle
    }
}

/// The state reached from `w` after one frame per focus report in `reports`.
pub open spec fn window_after_frames(w: Window, reports: Seq<Option<bool>>) -> Window
    decreases reports.len(),
{
    if reports.len() == 0 {
        w
    } else {
        window_after_frames(window_after(w, reports[0]), reports.drop_first())
    }
}

/// Advancing a frame never shows or hides the window: only an explicit show
/// or hide changes visibility.
pub proof fn lemma_advance_keeps_visibility(w: Window, focused: Option<bool>)
    ensures
        is_visible_spec(window_after(w, focused)) == is_visible_spec(w),
{
}

/// A dismissal is only ever reported for a visible window that lost focus,
/// and it leaves the window interactive until the caller hides it.
pub proof fn lemma_dismiss_only_on_focus_loss(w: Window, focused: Option<bool>)
    ensures
        step_after(w, focused) == Step::Dismiss ==> {
            &&& focused == Some(false)
            &&& is_visible_spec(w)
            &&& window_after(w, focused) == Window::Interactive
        },
{
}

/// While activating and before the timeout, a frame without focus never
/// dismisses: the window waits one frame longer, and asks to be activated only
/// on the delay frame.
pub proof fn lemma_unfocused_activation_waits(frames: u32, focused: Option<bool>)
    requires
        frames < ACTIVATION_TIMEOUT_FRAMES,
        focused != Some(true),
    ensures
        step_after(Window::Activating { frames }, focused) == (Step::Settle {
            activate: frames == ACTIVATE_DELAY_FRAMES,
        }),
        window_after(Window::Activating { frames }, focused) == (Window::Activating {
            frames: (frames + 1) as u32,
        }),
{
}

/// A dismissal comes only from a window that is interactive, or that has
/// waited out the activation timeout, and only on a frame that lost focus.
pub proof fn lemma_dismiss_source(w: Window, focused: Option<bool>)
    ensures
        step_after(w, focused) == Step::Dismiss ==> focused == Some(false) && (w == Window::Interactive
            || (w matches Window::Activating { frames } && frames >= ACTIVATION_TIMEOUT_FRAMES)),
{
}

/// A hidden window never dismisses, settles or changes state.
pub proof fn lemma_hidden_is_inert(focused: Option<bool>)
    ensures
        window_after(Window::Hidden, focused) == Window::Hidden,
        step_after(Window::Hidden, focused) == Step::Idle,
{
}

/// The app is asked to activate on exactly one frame of the activation phase:
/// the one that follows the frame on which the window became visible.
pub proof fn lemma_activate_requested_once(w: Window, focused: Option<bool>)
    ensures
        step_after(w, focused) == (Step::Settle { activate: true }) <==> (w == Window::Activating {
            frames: ACTIVATE_DELAY_FRAMES,
        } && focused != Some(true)),
{
}

/// An interactive window stays interactive whatever focus reports follow.
pub proof fn lemma_interactive_stays(reports: Seq<Option<bool>>)
    ensures
        window_after_frames(Window::Interactive, reports) == Window::Interactive,
    decreases reports.len(),
{
    if reports.len() > 0 {
        lemma_interactive_stays(reports.drop_first());
    }
}

/// Activation always settles: whatever focus is reported, a window that is
/// activating is interactive after more frames than the activation timeout.
pub proof fn lemma_activation_settles(frames: u32, reports: Seq<Option<bool>>)
    requires
        reports.len() > ACTIVATION_TIMEOUT_FRAMES,
    ensures
        window_after_frames(Window::Activating { frames }, reports) == Window::Interactive,
    decreases reports.len(),
{
    let next = window_after(Window::Activating { frames }, reports[0]);
    if next == Window::Interactive {
        lemma_interactive_stays(reports.drop_first());
    } else {
        assert(frames < ACTIVATION_TIMEOUT_FRAMES);
        lemma_activation_settles_from((frames + 1) as u32, reports.drop_first());
    }
}

proof fn lemma_activation_settles_from(frames: u32, reports: Seq<Option<bool>>)
    requires
        frames <= ACTIVATION_TIMEOUT_FRAMES,
        reports.len() > ACTIVATION_TIMEOUT_FRAMES - frames,
    ensures
        window_after_frames(Window::Activating { frames }, reports) == Window::Interactive,
    decreases reports.len(),
{
    let next = window_after(Window::Activating { frames }, reports[0]);
    if next == Window::Interactive {
        lemma_interactive_stays(reports.drop_first());
    } else {
        lemma_activation_settles_from((frames + 1) as u32, reports.drop_first());
    }
}

/// A window that was just shown is visible.
pub proof fn lemma_just_shown_is_visible(w: Window)
    ensures
        just_shown_spec(w) ==> is_visible_spec(w),
{
}

} // verus!

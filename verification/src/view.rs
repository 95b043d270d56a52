//! The decisions of the launcher view: keyboard navigation, focus of the
//! query box, scrolling to the selection, and what the user asked for.

use vstd::prelude::*;

use crate::launcher::Launcher;

verus! {

/// What the user asked for in a frame.
#[derive(Debug, PartialEq, Eq, Structural)]
pub enum Intent {
    /// Launch the app on this row.
    Launch(usize),
    /// Close the window.
    Dismiss,
}

/// How a result row is highlighted.
#[derive(Debug, PartialEq, Eq, Structural)]
pub enum RowShade {
    Selected,
    Hovered,
}

/// The intent of a frame: a clicked row wins, then Enter (the selected row),
/// then Escape.
pub open spec fn intent_spec(
    clicked_row: Option<usize>,
    enter: bool,
    escape: bool,
    selected: usize,
) -> Option<Intent> {
    if clicked_row is Some {
        Some(Intent::Launch(clicked_row->0))
    } else if enter {
        Some(Intent::Launch(selected))
    } else if escape {
        Some(Intent::Dismiss)
    } else {
        None
    }
}

pub fn intent_for(clicked_row: Option<usize>, enter: bool, escape: bool, selected: usize) -> (intent:
    Option<Intent>)
    ensures
        intent == intent_spec(clicked_row, enter, escape, selected),
{
    match clicked_row {
        Some(row) => Some(Intent::Launch(row)),
        None => {
            if enter {
                Some(Intent::Launch(selected))
            } else if escape {
                Some(Intent::Dismiss)
            } else {
                None
            }
        },
    }
}

/// What a frame's input asks for: a click launches the clicked row whatever
/// keys are pressed; without a click, Enter launches the selected row, Escape
/// alone dismisses, and nothing else asks for anything.
pub proof fn lemma_intent(clicked_row: Option<usize>, enter: bool, escape: bool, selected: usize)
    ensures
        clicked_row matches Some(row) ==> intent_spec(clicked_row, enter, escape, selected) == Some(
            Intent::Launch(row),
        ),
        clicked_row is None && enter ==> intent_spec(clicked_row, enter, escape, selected) == Some(
            Intent::Launch(selected),
        ),
        clicked_row is None && !enter && escape ==> intent_spec(clicked_row, enter, escape, selected)
            == Some(Intent::Dismiss),
        clicked_row is None && !enter && !escape ==> intent_spec(
            clicked_row,
            enter,
            escape,
            selected,
        ) is None,
{
}

/// The highlight of a row: the selected row is always highlighted as such; another
/// row only while hovered.
pub fn row_background(selected: bool, hovered: bool) -> (shade: Option<RowShade>)
    ensures
        selected ==> shade == Some(RowShade::Selected),
        !selected && hovered ==> shade == Some(RowShade::Hovered),
        !selected && !hovered ==> shade is None,
{
    if selected {
        Some(RowShade::Selected)
    } else if hovered {
        Some(RowShade::Hovered)
    } else {
        None
    }
}

/// Whether the query box still has to take focus after a show, and whether
/// the selected row has to be scrolled into view.
pub struct ViewState {
    pub focus_requested: bool,
    pub scroll_pending: bool,
}

impl ViewState {
    pub fn new() -> (v: ViewState)
        ensures
            !v.focus_requested,
            !v.scroll_pending,
    {
        ViewState { focus_requested: false, scroll_pending: false }
    }

    /// The query box is to take focus on the next frame.
    pub fn focus_query(&mut self)
        ensures
            !final(self).focus_requested,
            final(self).scroll_pending == old(self).scroll_pending,
    {
        self.focus_requested = false;
    }

    /// Called when the query box is drawn: returns whether to ask for focus
    /// now (once after a show, unless it has focus already).
    pub fn claim_focus(&mut self, has_focus: bool) -> (request: bool)
        ensures
            request == (!old(self).focus_requested && !has_focus),
            final(self).focus_requested,
            final(self).scroll_pending == old(self).scroll_pending,
    {
        let request = !self.focus_requested && !has_focus;
        self.focus_requested = true;
        request
    }

    /// Applies the arrow keys of a frame: Down moves the selection down, then
    /// Up moves it up; either one makes the selection scroll into view.
    pub fn navigate(&mut self, launcher: &mut Launcher, up: bool, down: bool)
        requires
            old(launcher).wf(),
        ensures
            final(launcher).wf(),
            final(launcher).apps_view() == old(launcher).apps_view(),
            final(launcher).query_view() == old(launcher).query_view(),
            final(launcher).results_view() == old(launcher).results_view(),
            final(launcher).selection() == {
                let count = old(launcher).results_view().len();
                let s0 = old(launcher).selection();
                let s1 = if down && s0 + 1 < count {
                    s0 + 1
                } else {
                    s0
                };
                if up && s1 > 0 {
                    (s1 - 1) as nat
                } else {
                    s1
                }
            },
            final(self).scroll_pending == (old(self).scroll_pending || up || down),
            final(self).focus_requested == old(self).focus_requested,
    {
        if down {
            launcher.select_next();
            self.scroll_pending = true;
        }
        if up {
            launcher.select_prev();
            self.scroll_pending = true;
        }
    }

    /// The query was edited: the first row of the new results is selected
    /// and scrolled into view.
    pub fn query_edited(&mut self, launcher: &mut Launcher)
        requires
            old(launcher).wf(),
        ensures
            final(launcher).wf(),
            final(launcher).apps_view() == old(launcher).apps_view(),
            final(launcher).query_view() == old(launcher).query_view(),
            crate::search::is_filter_result(
                final(launcher).query_view(),
                crate::catalog::app_names(final(launcher).apps_view()),
                final(launcher).results_view(),
            ),
            final(launcher).selection() == 0,
            final(self).scroll_pending,
            final(self).focus_requested == old(self).focus_requested,
    {
        launcher.on_query_edited();
        self.scroll_pending = true;
    }

    /// Ends a layout pass. A pass the layout discards throws away the scroll
    /// it asked for, so the request stands until a pass survives.
    pub fn end_pass(&mut self, discarded: bool)
        ensures
            final(self).scroll_pending == (old(self).scroll_pending && discarded),
            final(self).focus_requested == old(self).focus_requested,
    {
        if !discarded {
            self.scroll_pending = false;
        }
    }
}

} // verus!

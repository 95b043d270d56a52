//! The launcher's state: the catalog, the query, the filtered results and the
//! selected row.

use vstd::prelude::*;

use crate::catalog::{AppEntry, app_names};
use crate::search::{Search, is_filter_result};

verus! {

/// The row that stays selected when the result list changes length: the old
/// selection, moved up to the last row if the list got shorter.
pub open spec fn clamp_selection(selected: nat, count: nat) -> nat {
    if count == 0 {
        0
    } else if selected < count {
        selected
    } else {
        (count - 1) as nat
    }
}

/// The selection after moving down: the next row, if there is one.
pub open spec fn next_selection(selected: nat, count: nat) -> nat {
    if selected + 1 < count {
        selected + 1
    } else {
        selected
    }
}

/// The selection after moving up: the previous row, if there is one.
pub open spec fn prev_selection(selected: nat) -> nat {
    if selected > 0 {
        (selected - 1) as nat
    } else {
        0
    }
}

pub struct Launcher {
    apps: Vec<AppEntry>,
    search: Search,
    pub query: String,
    results: Vec<usize>,
    selected: usize,
    has_catalog: bool,
}

impl Launcher {
    /// The catalog.
    pub closed spec fn apps_view(&self) -> Seq<AppEntry> {
        self.apps@
    }

    /// The query.
    pub closed spec fn query_view(&self) -> Seq<char> {
        self.query@
    }

    /// The indices into the catalog of the rows shown, top to bottom.
    pub closed spec fn results_view(&self) -> Seq<usize> {
        self.results@
    }

    /// The selected row.
    pub closed spec fn selection(&self) -> nat {
        self.selected as nat
    }

    /// No catalog has arrived yet: the first scan is still running.
    pub closed spec fn awaiting_catalog(&self) -> bool {
        !self.has_catalog
    }

    /// Every row names an app of the catalog, and the selection is a row (or
    /// the first row of an empty list).
    pub closed spec fn wf(&self) -> bool {
        &&& forall|k: int| 0 <= k < self.results@.len() ==> self.results@[k] < self.apps@.len()
        &&& (self.selected == 0 || self.selected < self.results@.len())
    }

    pub fn new() -> (l: Launcher)
        ensures
            l.wf(),
            l.apps_view().len() == 0,
            l.query_view().len() == 0,
            l.results_view().len() == 0,
            l.selection() == 0,
            l.awaiting_catalog(),
    {
        Launcher {
            apps: Vec::new(),
            search: Search::new(),
            query: String::new(),
            results: Vec::new(),
            selected: 0,
            has_catalog: false,
        }
    }

    /// Replaces the catalog and filters it by the current query.
    pub fn set_apps(&mut self, apps: Vec<AppEntry>)
        requires
            old(self).wf(),
        ensures
            final(self).wf(),
            final(self).apps_view() == apps@,
            final(self).query_view() == old(self).query_view(),
            is_filter_result(final(self).query_view(), app_names(apps@), final(self).results_view()),
            final(self).selection() == clamp_selection(
                old(self).selection(),
                final(self).results_view().len(),
            ),
            !final(self).awaiting_catalog(),
    {
        self.apps = apps;
        self.has_catalog = true;
        self.refilter();
    }

    /// The query was edited: select the first row of the new results.
    pub fn on_query_edited(&mut self)
        requires
            old(self).wf(),
        ensures
            final(self).wf(),
            final(self).apps_view() == old(self).apps_view(),
            final(self).query_view() == old(self).query_view(),
            is_filter_result(
                final(self).query_view(),
                app_names(final(self).apps_view()),
                final(self).results_view(),
            ),
            final(self).selection() == 0,
            final(self).awaiting_catalog() == old(self).awaiting_catalog(),
    {
        self.selected = 0;
        self.refilter();
    }

    /// Clears the query and selects the first row: every app is listed again.
    pub fn reset(&mut self)
        requires
            old(self).wf(),
        ensures
            final(self).wf(),
            final(self).apps_view() == old(self).apps_view(),
            final(self).query_view().len() == 0,
            final(self).results_view() == Seq::new(
                old(self).apps_view().len(),
                |i: int| i as usize,
            ),
            final(self).selection() == 0,
            final(self).awaiting_catalog() == old(self).awaiting_catalog(),
    {
        self.query = String::new();
        self.selected = 0;
        self.refilter();
    }

    /// Moves the selection one row down, unless it is on the last row.
    pub fn select_next(&mut self)
        requires
            old(self).wf(),
        ensures
            final(self).wf(),
            final(self).apps_view() == old(self).apps_view(),
            final(self).query_view() == old(self).query_view(),
            final(self).results_view() == old(self).results_view(),
            final(self).selection() == next_selection(
                old(self).selection(),
                old(self).results_view().len(),
            ),
            final(self).awaiting_catalog() == old(self).awaiting_catalog(),
    {
        assert(self.selected == 0 || self.selected < self.results.len());
        if self.selected + 1 < self.results.len() {
            self.selected += 1;
        }
    }

    /// Moves the selection one row up, unless it is on the first row.
    pub fn select_prev(&mut self)
        requires
            old(self).wf(),
        ensures
            final(self).wf(),
            final(self).apps_view() == old(self).apps_view(),
            final(self).query_view() == old(self).query_view(),
            final(self).results_view() == old(self).results_view(),
            final(self).selection() == prev_selection(old(self).selection()),
            final(self).awaiting_catalog() == old(self).awaiting_catalog(),
    {
        self.selected = if self.selected > 0 {
            self.selected - 1
        } else {
            0
        };
    }

    pub fn selected(&self) -> (row: usize)
        ensures
            row == self.selection(),
    {
        self.selected
    }

    /// Whether the first scan is still running: no catalog has arrived yet.
    pub fn is_scanning(&self) -> (scanning: bool)
        ensures
            scanning == self.awaiting_catalog(),
    {
        !self.has_catalog
    }

    pub fn result_count(&self) -> (count: usize)
        ensures
            count == self.results_view().len(),
    {
        self.results.len()
    }

    /// The app shown on `row`, if there is such a row.
    pub fn entry(&self, row: usize) -> (e: Option<&AppEntry>)
        requires
            self.wf(),
        ensures
            row < self.results_view().len() ==> e == Some(
                &self.apps_view()[self.results_view()[row as int] as int],
            ),
            row >= self.results_view().len() ==> e is None,
    {
        if row < self.results.len() {
            Some(&self.apps[self.results[row]])
        } else {
            None
        }
    }

    fn refilter(&mut self)
        ensures
            final(self).wf(),
            final(self).apps == old(self).apps,
            final(self).query == old(self).query,
            final(self).has_catalog == old(self).has_catalog,
            is_filter_result(
                final(self).query@,
                app_names(final(self).apps@),
                final(self).results@,
            ),
            final(self).selected == clamp_selection(
                old(self).selected as nat,
                final(self).results@.len(),
            ),
    {
        self.results = self.search.filter(self.query.as_str(), self.apps.as_slice());
        proof {
            lemma_filter_result_in_range(self.query@, app_names(self.apps@), self.results@);
        }
        let last = if self.results.len() > 0 {
            self.results.len() - 1
        } else {
            0
        };
        if self.selected > last {
            self.selected = last;
        }
    }
}

impl Default for Launcher {
    fn default() -> (l: Launcher)
        ensures
            l.wf(),
            l.apps_view().len() == 0,
            l.query_view().len() == 0,
            l.results_view().len() == 0,
            l.selection() == 0,
            l.awaiting_catalog(),
    {
        Launcher::new()
    }
}

/// Every index a filter returns names one of the filtered apps.
pub proof fn lemma_filter_result_in_range(query: Seq<char>, names: Seq<Seq<char>>, r: Seq<usize>)
    requires
        is_filter_result(query, names, r),
    ensures
        forall|k: int| 0 <= k < r.len() ==> r[k] < names.len(),
{
    assert forall|k: int| 0 <= k < r.len() implies r[k] < names.len() by {
        if !crate::text::is_blank_spec(query) {
            assert(r.contains(r[k]));
        }
    }
}

/// The selection is always a row of the list, or the first row of an empty
/// list.
pub proof fn lemma_selection_in_range(l: &Launcher)
    requires
        l.wf(),
    ensures
        l.selection() == 0 || l.selection() < l.results_view().len(),
        forall|k: int|
            0 <= k < l.results_view().len() ==> #[trigger] l.results_view()[k] < l.apps_view().len(),
{
}

/// Moving down and then up returns to the row one started from, when there
/// was a row below it.
pub proof fn lemma_prev_undoes_next(selected: nat, count: nat)
    requires
        selected + 1 < count,
    ensures
        prev_selection(next_selection(selected, count)) == selected,
{
}

/// Moving up and then down returns to the row one started from, when there
/// was a row above it.
pub proof fn lemma_next_undoes_prev(selected: nat, count: nat)
    requires
        0 < selected < count,
    ensures
        next_selection(prev_selection(selected), count) == selected,
{
}

/// Moving never leaves the list: from a row of the list (or the first row of
/// an empty one), either move lands on such a row again.
pub proof fn lemma_moves_stay_in_range(selected: nat, count: nat)
    requires
        selected == 0 || selected < count,
    ensures
        next_selection(selected, count) == 0 || next_selection(selected, count) < count,
        prev_selection(selected) == 0 || prev_selection(selected) < count,
{
}

/// When the list changes, the selection stays where it was if that row still
/// exists, and otherwise moves to the last row (the first of an empty list).
pub proof fn lemma_clamp_selection(selected: nat, count: nat)
    ensures
        selected < count ==> clamp_selection(selected, count) == selected,
        count > 0 ==> clamp_selection(selected, count) < count,
        count == 0 ==> clamp_selection(selected, count) == 0,
        selected >= count && count > 0 ==> clamp_selection(selected, count) == count - 1,
{
}

} // verus!

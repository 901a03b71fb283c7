//! The tray icon's state.
//!
//! The icon reflects the store: Active while a workblock runs, otherwise
//! SummaryReady once today has a finished (completed or cancelled)
//! workblock, otherwise Idle. Drawing the icon is presentation work; this
//! module owns only the decision.

use vstd::prelude::*;

use crate::date::Date;
use crate::store::{Store, has_active_workblock};

verus! {

/// What the tray icon shows.
#[derive(Clone, Copy, Debug, PartialEq, Eq, Structural)]
pub enum TrayIconState {
    /// No active workblock.
    Idle,
    /// A workblock is in progress.
    Active,
    /// A workblock finished today; its summary is available.
    SummaryReady,
}

/// Some workblock of the date is finished: Completed or Cancelled.
pub open spec fn has_finished_on(wbs: Seq<crate::store::Workblock>, date: Date) -> bool {
    exists|i: int|
        0 <= i < wbs.len() && wbs[i].date == date && !(wbs[i].status is Active)
}

/// The state the store calls for: Active wins over SummaryReady, which
/// wins over Idle.
pub open spec fn spec_tray_state(wbs: Seq<crate::store::Workblock>, today: Date) -> TrayIconState {
    if has_active_workblock(wbs) {
        TrayIconState::Active
    } else if has_finished_on(wbs, today) {
        TrayIconState::SummaryReady
    } else {
        TrayIconState::Idle
    }
}

/// The tray's view of the system.
pub struct TrayManager {
    pub current_state: TrayIconState,
}

/// Whether some workblock of the date is finished.
fn any_finished_on(workblocks: &Vec<crate::store::Workblock>, date: Date) -> (r: bool)
    ensures
        r == has_finished_on(workblocks@, date),
{
    let mut i: usize = 0;
    while i < workblocks.len()
        invariant
            i <= workblocks@.len(),
            forall|j: int|
                0 <= j < i ==> !((#[trigger] workblocks@[j]).date == date && !(
                workblocks@[j].status is Active)),
        decreases workblocks@.len() - i,
    {
        let wb = workblocks[i];
        if wb.date == date && !matches!(wb.status, crate::store::WorkblockStatus::Active) {
            return true;
        }
        i += 1;
    }
    false
}

impl TrayManager {
    /// A tray that starts out Idle.
    pub fn new() -> (t: Self)
        ensures
            t.current_state == TrayIconState::Idle,
    {
        TrayManager { current_state: TrayIconState::Idle }
    }

    /// The state currently shown.
    pub fn get_state(&self) -> (r: TrayIconState)
        ensures
            r == self.current_state,
    {
        self.current_state
    }

    /// Show the given state.
    pub fn update_icon_state(&mut self, state: TrayIconState)
        ensures
            final(self).current_state == state,
    {
        self.current_state = state;
    }

    /// Recompute the state from the store: Active if a workblock runs,
    /// else SummaryReady if today has a finished workblock, else Idle.
    pub fn refresh_state(&mut self, s: &Store, today: Date)
        requires
            s.wf(),
        ensures
            final(self).current_state == spec_tray_state(s.workblocks@, today),
    {
        let new_state = if crate::store::get_active_workblock(s).is_some() {
            TrayIconState::Active
        } else if any_finished_on(&s.workblocks, today) {
            TrayIconState::SummaryReady
        } else {
            TrayIconState::Idle
        };
        self.update_icon_state(new_state);
    }
}

} // verus!

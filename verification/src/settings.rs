//! User settings that the task logic reads, and the settings screen state.
use vstd::prelude::*;
use crate::sync_panel::SyncPanelState;

verus! {

/// Where a new (or displaced) task goes in the sub-task list.
#[derive(Clone, Copy, PartialEq, Eq, Structural, Debug)]
pub enum NewTaskPos {
    End,
    Beginning,
}

/// Settings shared with the task logic. The window geometry that the
/// widget also remembers is kept by the program, not here.
pub struct Settings {
    pub new_task_pos: NewTaskPos,
    pub replace_main: bool,
    pub last_project_id: Option<String>,
    /// Show inactive routines after the active tasks (display only).
    pub group_inactive_at_end: bool,
}

/// Default of `group_inactive_at_end` for settings files without it.
pub fn default_group_inactive() -> (r: bool)
    ensures
        r,
{
    true
}

impl Default for Settings {
    fn default() -> (r: Self)
        ensures
            r.new_task_pos == NewTaskPos::End,
            !r.replace_main,
            r.last_project_id is None,
            r.group_inactive_at_end,
    {
        Settings {
            new_task_pos: NewTaskPos::End,
            replace_main: false,
            last_project_id: None,
            group_inactive_at_end: true,
        }
    }
}

impl Settings {
    /// Sets where new tasks go; reports whether the value changed.
    pub fn apply_new_task_pos(&mut self, v: NewTaskPos) -> (changed: bool)
        ensures
            final(self).new_task_pos == v,
            final(self).replace_main == old(self).replace_main,
            final(self).last_project_id == old(self).last_project_id,
            final(self).group_inactive_at_end == old(self).group_inactive_at_end,
            changed == (old(self).new_task_pos != v),
    {
        let changed = self.new_task_pos != v;
        self.new_task_pos = v;
        changed
    }

    /// Sets whether a new task takes the main place; reports whether the
    /// value changed.
    pub fn apply_replace_main(&mut self, v: bool) -> (changed: bool)
        ensures
            final(self).replace_main == v,
            final(self).new_task_pos == old(self).new_task_pos,
            final(self).last_project_id == old(self).last_project_id,
            final(self).group_inactive_at_end == old(self).group_inactive_at_end,
            changed == (old(self).replace_main != v),
    {
        let changed = self.replace_main != v;
        self.replace_main = v;
        changed
    }
}

/// Tabs of the settings screen.
#[derive(Clone, Copy, PartialEq, Eq, Structural)]
pub enum SettingsTab {
    General,
    Projects,
    Sync,
}

/// State of the settings screen.
pub struct SettingsUiState {
    pub tab: SettingsTab,
    pub sync_panel: SyncPanelState,
}

impl SettingsUiState {
    /// A fresh settings screen, on the general tab.
    pub fn new() -> (r: Self)
        ensures
            r.tab == SettingsTab::General,
    {
        SettingsUiState { tab: SettingsTab::General, sync_panel: SyncPanelState::new() }
    }
}

} // verus!

//! User-facing simulation settings: menu visibility and the auto-run flag.

use vstd::prelude::*;

verus! {

/// Two independent boolean switches driven by UI events: whether the
/// settings menu is visible, and whether the simulation clock is running.
#[derive(Debug, Clone)]
pub struct Settings {
    visible: bool,
    auto_run: bool,
}

impl Settings {
    /// Whether the settings menu is currently shown.
    pub closed spec fn spec_visible(self) -> bool {
        self.visible
    }

    /// Whether the periodic simulation clock is enabled.
    pub closed spec fn spec_auto_run(self) -> bool {
        self.auto_run
    }

    /// Flips the menu visibility and nothing else.
    pub fn toggle(&mut self)
        ensures
            final(self).spec_visible() == !old(self).spec_visible(),
            final(self).spec_auto_run() == old(self).spec_auto_run(),
    {
        self.visible = !self.visible;
    }

    /// Flips the auto-run flag and nothing else.
    pub fn toggle_auto_run(&mut self)
        ensures
            final(self).spec_auto_run() == !old(self).spec_auto_run(),
            final(self).spec_visible() == old(self).spec_visible(),
    {
        self.auto_run = !self.auto_run;
    }

    /// Reports whether the settings menu is shown.
    pub fn visible(&self) -> (r: bool)
        ensures
            r == self.spec_visible(),
    {
        self.visible
    }

    /// Reports the auto-run flag.
    pub fn auto_run(&self) -> (r: bool)
        ensures
            r == self.spec_auto_run(),
    {
        self.auto_run
    }
}

impl Default for Settings {
    /// Both switches start off: menu hidden, clock stopped.
    fn default() -> (r: Self)
        ensures
            !r.spec_visible(),
            !r.spec_auto_run(),
    {
        Settings { visible: false, auto_run: false }
    }
}

} // verus!

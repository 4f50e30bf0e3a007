//! The editor shell's plugin scheduling: six plugin slots in a fixed
//! dispatch order, at most one active at a time. The plugins themselves —
//! rendering, input handling, everything they do with an event — live with
//! the shell outside this core; the shell reports, per event, which slots
//! claimed it, and the scheduler here decides which slot is active next.

use crate::parking::{lemma_first_true, spec_first_true};
use vstd::prelude::*;

verus! {

/// How many plugin slots the shell dispatches over.
pub const NUM_PLUGIN_SLOTS: usize = 6;

/// The six plugin slots, in dispatch order: first the plugins independent
/// of the loaded map, then the per-map ones.
#[derive(Clone, Copy, PartialEq, Eq, Structural, Debug)]
pub enum PluginSlot {
    EditMode,
    SimMode,
    Logs,
    DebugMode,
    ViewMode,
    TimeTravel,
}

/// The slot a dispatch index names.
pub open spec fn spec_slot_of(idx: usize) -> PluginSlot {
    if idx == 0 {
        PluginSlot::EditMode
    } else if idx == 1 {
        PluginSlot::SimMode
    } else if idx == 2 {
        PluginSlot::Logs
    } else if idx == 3 {
        PluginSlot::DebugMode
    } else if idx == 4 {
        PluginSlot::ViewMode
    } else {
        PluginSlot::TimeTravel
    }
}

/// The plugins that do not depend on the loaded map: the first three slots.
pub struct PluginsPerUI {}

impl PluginsPerUI {
    pub fn new() -> (p: PluginsPerUI)
        ensures
            p == (PluginsPerUI {  }),
    {
        PluginsPerUI {  }
    }

    /// The slot one of the first three dispatch indexes names.
    pub fn slot(&self, idx: usize) -> (s: PluginSlot)
        requires
            idx < 3,
        ensures
            s == spec_slot_of(idx),
    {
        if idx == 0 {
            PluginSlot::EditMode
        } else if idx == 1 {
            PluginSlot::SimMode
        } else {
            PluginSlot::Logs
        }
    }
}

/// The plugins tied to the loaded map: the last three slots.
pub struct PluginsPerMap {}

impl PluginsPerMap {
    pub fn new() -> (p: PluginsPerMap)
        ensures
            p == (PluginsPerMap {  }),
    {
        PluginsPerMap {  }
    }

    /// The slot one of the last three dispatch indexes names.
    pub fn slot(&self, idx: usize) -> (s: PluginSlot)
        requires
            3 <= idx < NUM_PLUGIN_SLOTS,
        ensures
            s == spec_slot_of(idx),
    {
        if idx == 3 {
            PluginSlot::DebugMode
        } else if idx == 4 {
            PluginSlot::ViewMode
        } else {
            PluginSlot::TimeTravel
        }
    }
}

/// Which slot the scheduler activates after one event: an active plugin
/// keeps the event to itself and stays active exactly while it claims it;
/// with none active, the first slot in dispatch order to claim the event
/// becomes active.
pub open spec fn spec_next_active(active: Option<usize>, claims: Seq<bool>) -> Option<usize> {
    match active {
        Some(i) => if claims[i as int] {
            Some(i)
        } else {
            None
        },
        None => if exists|i: int| 0 <= i < claims.len() && claims[i] {
            Some(spec_first_true(claims) as usize)
        } else {
            None
        },
    }
}

/// The shell's scheduling state: which plugin slot, if any, owns the input.
pub struct DefaultUIState {
    pub plugins: PluginsPerUI,
    pub primary_plugins: PluginsPerMap,
    pub active_plugin: Option<usize>,
}

impl DefaultUIState {
    /// An active index names one of the six slots.
    pub open spec fn wf(self) -> bool {
        self.active_plugin is Some ==> self.active_plugin->0 < NUM_PLUGIN_SLOTS
    }

    pub fn new() -> (s: DefaultUIState)
        ensures
            s.wf(),
            s.active_plugin is None,
    {
        DefaultUIState {
            plugins: PluginsPerUI::new(),
            primary_plugins: PluginsPerMap::new(),
            active_plugin: None,
        }
    }

    /// The slot of the active plugin, if one is active.
    pub fn get_active_plugin(&self) -> (r: Option<PluginSlot>)
        requires
            self.wf(),
        ensures
            r == match self.active_plugin {
                Some(i) => Some(spec_slot_of(i)),
                None => None::<PluginSlot>,
            },
    {
        match self.active_plugin {
            Some(idx) => {
                if idx < 3 {
                    Some(self.plugins.slot(idx))
                } else {
                    Some(self.primary_plugins.slot(idx))
                }
            },
            None => None,
        }
    }

    /// One scheduling step: `claims[i]` says whether slot `i`'s plugin
    /// claimed this event (the shell runs only the active plugin when there
    /// is one, and otherwise each in dispatch order until one claims).
    pub fn event(&mut self, claims: &Vec<bool>)
        requires
            old(self).wf(),
            claims@.len() == NUM_PLUGIN_SLOTS,
        ensures
            final(self).wf(),
            final(self).active_plugin == spec_next_active(old(self).active_plugin, claims@),
            final(self).plugins == old(self).plugins,
            final(self).primary_plugins == old(self).primary_plugins,
    {
        match self.active_plugin {
            Some(i) => {
                if !claims[i] {
                    self.active_plugin = None;
                }
            },
            None => {
                let mut idx: usize = 0;
                while idx < claims.len()
                    invariant
                        idx <= claims@.len(),
                        claims@.len() == NUM_PLUGIN_SLOTS,
                        self.active_plugin is None,
                        old(self).active_plugin is None,
                        self.plugins == old(self).plugins,
                        self.primary_plugins == old(self).primary_plugins,
                        forall|j: int| 0 <= j < idx ==> !claims@[j],
                    decreases claims@.len() - idx,
                {
                    if claims[idx] {
                        proof {
                            assert(claims@[idx as int]);
                            assert(exists|i: int| 0 <= i < claims@.len() && claims@[i]);
                            lemma_first_true(claims@, idx as int);
                        }
                        self.active_plugin = Some(idx);
                        return ;
                    }
                    idx += 1;
                }
            },
        }
    }
}

} // verus!

use sim_core::ui::{DefaultUIState, PluginSlot};

#[test]
fn first_claiming_slot_becomes_active() {
    let mut s = DefaultUIState::new();
    assert_eq!(s.get_active_plugin(), None);
    s.event(&vec![false, false, true, true, false, false]);
    assert_eq!(s.get_active_plugin(), Some(PluginSlot::Logs));
}

#[test]
fn active_plugin_keeps_the_event_until_it_lets_go() {
    let mut s = DefaultUIState::new();
    s.event(&vec![false, false, false, false, true, false]);
    assert_eq!(s.get_active_plugin(), Some(PluginSlot::ViewMode));
    // While the view mode claims events, others never run.
    s.event(&vec![true, true, true, true, true, true]);
    assert_eq!(s.get_active_plugin(), Some(PluginSlot::ViewMode));
    // Once it lets go, the shell goes back to scanning on the next event.
    s.event(&vec![true, true, true, true, false, true]);
    assert_eq!(s.get_active_plugin(), None);
    s.event(&vec![false, true, false, false, false, false]);
    assert_eq!(s.get_active_plugin(), Some(PluginSlot::SimMode));
}

#[test]
fn no_claim_leaves_nothing_active() {
    let mut s = DefaultUIState::new();
    s.event(&vec![false; 6]);
    assert_eq!(s.get_active_plugin(), None);
}

//! The shapes of the starter-pack's plugin events: the action, the widget (context) and
//! device an event concerns, with the action's settings and, for dials, the rotation.

use vstd::prelude::*;
use crate::settings::SettingsValue;

verus! {

/// What an event carries besides its addresses.
pub struct EventPayload {
    pub settings: SettingsValue,
    /// Dial rotation in ticks (0 for presses).
    pub ticks: i16,
}

/// An event addressed to one widget.
pub struct PluginEvent {
    pub action: String,
    pub context: String,
    pub device: String,
    pub payload: EventPayload,
}

/// What every action event offers its handler.
pub trait ActionEvent {
    /// The widget the event concerns.
    fn context(&self) -> &String;

    /// The action's settings.
    fn settings(&self) -> &SettingsValue;
}

impl ActionEvent for PluginEvent {
    fn context(&self) -> (r: &String)
        ensures
            r == &self.context,
    {
        &self.context
    }

    fn settings(&self) -> (r: &SettingsValue)
        ensures
            r == &self.payload.settings,
    {
        &self.payload.settings
    }
}

/// The channel the starter-pack's actions answer through (titles, images, alerts and
/// raw events); the plugin performs the sends.
pub struct OutboundEventManager;

} // verus!

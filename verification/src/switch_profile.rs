//! Switching a device to another profile: which device and which profile a key asks for.

use vstd::prelude::*;
use crate::compat::PluginEvent;
use crate::settings::{setting_text, setting_value, SettingsValue};
use crate::text::owned;

verus! {

broadcast use vstd::string::group_string_axioms;

/// The device a switch-profile key addresses: its `device` setting when that is text,
/// else the device the key is on.
pub open spec fn switch_device_spec(settings: SettingsValue, device: Seq<char>) -> Seq<char> {
    match setting_text(settings, "device"@) {
        Some(d) => d,
        None => device,
    }
}

/// The profile a switch-profile key selects: its `profile` setting when that is text,
/// else `Default`.
pub open spec fn switch_profile_spec(settings: SettingsValue) -> Seq<char> {
    match setting_text(settings, "profile"@) {
        Some(p) => p,
        None => "Default"@,
    }
}

fn text_setting(settings: &SettingsValue, key: &str) -> (r: Option<String>)
    ensures
        match r {
            Some(s) => setting_text(*settings, key@) == Some(s@),
            None => setting_text(*settings, key@) is None,
        },
{
    match setting_value(settings, key) {
        Some(SettingsValue::String(s)) => Some(owned(s.as_str())),
        _ => None,
    }
}

/// The device and profile a released switch-profile key asks the host to switch to.
pub fn key_up_target(event: &PluginEvent) -> (r: (String, String))
    ensures
        r.0@ == switch_device_spec(event.payload.settings, event.device@),
        r.1@ == switch_profile_spec(event.payload.settings),
{
    let device = match text_setting(&event.payload.settings, "device") {
        Some(d) => d,
        None => owned(event.device.as_str()),
    };
    let profile = match text_setting(&event.payload.settings, "profile") {
        Some(p) => p,
        None => owned("Default"),
    };
    (device, profile)
}

} // verus!

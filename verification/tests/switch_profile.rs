use pixeldeck::compat::{ActionEvent, EventPayload, PluginEvent};
use pixeldeck::settings::{SettingsValue, SettingsNumber};
use pixeldeck::switch_profile::key_up_target;

fn event(settings: SettingsValue) -> PluginEvent {
    PluginEvent {
        action: "com.amansprojects.starterpack.switchprofile".to_owned(),
        context: "ctx".to_owned(),
        device: "DEV1".to_owned(),
        payload: EventPayload { settings, ticks: 0 },
    }
}

#[test]
fn the_key_names_device_and_profile() {
    let chosen = event(SettingsValue::Object(vec![
        ("device".to_owned(), SettingsValue::String("DEV2".to_owned())),
        ("profile".to_owned(), SettingsValue::String("Games".to_owned())),
    ]));
    assert_eq!(
        key_up_target(&chosen),
        ("DEV2".to_owned(), "Games".to_owned())
    );
    assert_eq!(chosen.context(), "ctx");
}

#[test]
fn unset_or_non_text_settings_fall_back() {
    let unset = event(SettingsValue::Object(vec![(
        "device".to_owned(),
        SettingsValue::Number(SettingsNumber::PosInt(3)),
    )]));
    assert_eq!(
        key_up_target(&unset),
        ("DEV1".to_owned(), "Default".to_owned())
    );
    let empty_profile = event(SettingsValue::Object(vec![(
        "profile".to_owned(),
        SettingsValue::String(String::new()),
    )]));
    assert_eq!(key_up_target(&empty_profile).1, "");
    assert_eq!(
        key_up_target(&event(SettingsValue::Null)),
        ("DEV1".to_owned(), "Default".to_owned())
    );
}

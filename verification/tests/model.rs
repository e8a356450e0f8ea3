use pixeldeck::model::ActionKind;
use pixeldeck::settings::{SettingsNumber, SettingsValue};

#[test]
fn every_manifest_action_has_a_native_handler() {
    let actions = [
        ("gold-price", ActionKind::Gold),
        ("currency-rate", ActionKind::Currency),
        ("stock-price", ActionKind::Stock),
        ("air-quality", ActionKind::AirQuality),
        ("powershell", ActionKind::PowerShell),
        ("weather", ActionKind::Weather),
        ("work-hours", ActionKind::WorkHours),
    ];
    assert_eq!(actions.len(), 7);
    let mut identifiers = std::collections::HashSet::new();
    for (suffix, kind) in actions {
        let uuid = format!("com.dvgamerr.widgets.{suffix}");
        assert!(identifiers.insert(uuid.clone()));
        assert_eq!(ActionKind::from_uuid(&uuid), Some(kind));
    }
    assert_eq!(ActionKind::from_uuid("com.dvgamerr.widgets.unknown"), None);
    assert_eq!(ActionKind::from_uuid("gold-price"), None);
    assert!(!ActionKind::PowerShell.scheduled());
    assert!(ActionKind::Weather.scheduled());
}

#[test]
fn refresh_intervals_are_clamped_per_kind() {
    let interval = |v: u64| {
        SettingsValue::Object(vec![(
            "interval".to_owned(),
            SettingsValue::Number(SettingsNumber::PosInt(v)),
        )])
    };
    let empty = SettingsValue::Object(vec![]);
    assert_eq!(ActionKind::Gold.refresh_interval(&empty), 15_000);
    assert_eq!(ActionKind::Gold.refresh_interval(&interval(1)), 3_000);
    assert_eq!(ActionKind::Currency.refresh_interval(&interval(1)), 5_000);
    assert_eq!(ActionKind::Stock.refresh_interval(&empty), 10_000);
    assert_eq!(
        ActionKind::AirQuality.refresh_interval(&interval(u64::MAX)),
        86_400_000
    );
    assert_eq!(ActionKind::Weather.refresh_interval(&empty), 1_800_000);
    assert_eq!(ActionKind::WorkHours.refresh_interval(&interval(5)), 60_000);
}

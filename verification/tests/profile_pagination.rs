use pixeldeck::profile_pagination::{
    pagination_image, rotated_page, rotation, selected_page, PaginationSettings,
};
use pixeldeck::settings::SettingsValue;

fn text(s: &str) -> SettingsValue {
    SettingsValue::String(s.to_owned())
}

#[test]
fn settings_keep_checked_profile_order_and_remove_duplicates() {
    let settings = PaginationSettings::from_settings(&SettingsValue::Object(vec![(
        "profiles".to_owned(),
        SettingsValue::Array(vec![text("Work"), text("Gaming"), text("Work"), text("")]),
    )]));
    assert_eq!(settings.profiles, ["Work", "Gaming"]);
}

#[test]
fn current_profile_selects_page_and_rotation_wraps() {
    let profiles = vec!["One".to_owned(), "Two".to_owned(), "Three".to_owned()];
    assert_eq!(selected_page("sd-device.Two.Encoder.0.0", &profiles), 1);
    assert_eq!(rotated_page(1, profiles.len(), 1), 2);
    assert_eq!(rotated_page(2, profiles.len(), 1), 0);
    assert_eq!(rotated_page(0, profiles.len(), -1), 2);
}

#[test]
fn renderer_outputs_touchscreen_sized_svg() {
    let image = pagination_image(1, &["One".to_owned(), "Two".to_owned(), "Three".to_owned()].to_vec());
    assert!(image.starts_with("data:image/svg+xml,"));
    assert!(image.contains("width%3D%22176%22"));
    assert!(image.contains("height%3D%22112%22"));
    assert!(!image.contains("stroke"));
    assert_eq!(image.matches("%3Crect").count(), 4);
}

#[test]
fn turning_the_dial_switches_only_to_another_profile() {
    let profiles: Vec<String> = ["One", "Two", "Three"].iter().map(|s| s.to_string()).collect();
    assert_eq!(
        rotation("sd-device.Two.Encoder.0.0", &profiles, 1),
        Some((2, Some("Three".to_owned())))
    );
    assert_eq!(
        rotation("sd-device.Two.Encoder.0.0", &profiles, 3),
        Some((1, None))
    );
    assert_eq!(rotation("sd-device.Two.Encoder.0.0", &Vec::new(), 1), None);
}

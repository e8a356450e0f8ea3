use pixeldeck::audio::{press_plan, snapshot as read_output_snapshot, switch_target, PressTracker, UNSUPPORTED};
use pixeldeck::audio::{
    centered_status_layout, device_switch_indicator, driver_name, snapshot_image, AudioSnapshot,
    ANIMATION_INTERVAL_MS,
};
use pixeldeck::pixel::text_width;

fn snapshot(device_name: &str, volume: u8, muted: bool, peak: u8) -> AudioSnapshot {
    AudioSnapshot {
        device_name: device_name.to_owned(),
        volume,
        muted,
        peak,
    }
}

#[test]
fn audio_animation_is_rate_limited_for_hid_displays() {
    assert_eq!(
        std::time::Duration::from_millis(ANIMATION_INTERVAL_MS),
        std::time::Duration::from_secs(1)
    );
}

#[test]
fn speaker_and_status_are_centered_as_one_group() {
    for status in ["0%", "50%", "100%", "MUTED"] {
        let (speaker_offset, status_center) = centered_status_layout(status);
        let speaker_left = 10.0 + speaker_offset as f64 / 100.0;
        let status_right = status_center as f64 / 100.0 + text_width(status, 29) as f64 / 2.0;
        assert!(((speaker_left + status_right) / 2.0 - 88.0).abs() < 0.01);
    }
}

#[test]
fn device_switch_uses_directional_chevrons_instead_of_text() {
    assert!(device_switch_indicator("PREV").contains("M14 95"));
    assert!(device_switch_indicator("NEXT").contains("M162 95"));
    assert!(!device_switch_indicator("PREV").contains("PREV"));
    assert!(!device_switch_indicator("NEXT").contains("NEXT"));
}

#[test]
fn lcd_image_uses_native_zone_dimensions_and_font_paths() {
    let image = snapshot_image(&snapshot("Speakers (Realtek Audio)", 67, false, 60), "");

    assert!(image.starts_with("data:image/svg+xml,"));
    assert!(image.contains("width%3D%22176%22"));
    assert!(image.contains("height%3D%22112%22"));
    assert!(image.contains("translate%280%20-13%29"));
    assert!(image.contains("transform%3D%22translate"));
    assert!(!image.contains("%3Ctext"));
    assert!(image.len() < 50_000);
}

#[test]
fn output_type_is_removed_from_device_name() {
    assert_eq!(driver_name("Speakers (Realtek(R) Audio)"), "Realtek(R) Audio");
    assert_eq!(driver_name("Headphones - WH-1000XM5"), "WH-1000XM5");
    assert_eq!(
        driver_name("NVIDIA High Definition Audio"),
        "NVIDIA High Definition Audio"
    );
    assert_eq!(driver_name("Speakerphone USB"), "Speakerphone USB");
}

#[test]
fn lcd_image_marks_muted_and_device_switch_states() {
    let muted = snapshot_image(&snapshot("Output", 50, true, 80), "");
    let switched = snapshot_image(&snapshot("Output", 50, false, 80), "NEXT");

    assert!(muted.contains("%23ff3155"));
    assert!(switched.contains("%23facc15"));
    assert!(!switched.contains("NEXT"));
    assert!(!switched.contains("PREV"));
    assert!(switched.contains("%23000"));
    assert!(!switched.contains("linearGradient"));
    assert!(!switched.contains("rx%3D"));
}

#[test]
fn real_audio_peak_changes_the_pixel_speaker_frame() {
    let quiet = snapshot_image(&snapshot("Output", 50, false, 0), "");
    let loud = snapshot_image(&snapshot("Output", 50, false, 90), "");

    assert_ne!(quiet, loud);
    assert!(!quiet.contains("M52%2032"));
    assert!(loud.contains("M52%2032"));
}

#[test]
fn audio_peak_animation_keeps_the_speaker_anchor_fixed() {
    let (speaker_offset, _) = centered_status_layout("50%");
    let speaker_offset = speaker_offset as f64 / 100.0;
    let expected_transform =
        format!("%3Cg%20transform%3D%22translate%28{speaker_offset:.2}%200%29%22%3E");

    for peak in [0, 10, 30, 90] {
        let image = snapshot_image(&snapshot("Output", 50, false, peak), "");

        assert!(
            image.contains(&expected_transform),
            "speaker moved at peak {peak}"
        );
    }
}

#[test]
fn a_second_press_within_a_second_is_a_double_press() {
    let mut presses = PressTracker::new();
    assert!(!presses.press("dial", 10_000));
    assert!(presses.press("dial", 11_000));
    // The double press answered the first: the next press starts over.
    assert!(!presses.press("dial", 11_500));
    assert!(!presses.press("dial", 12_501));
    assert!(!presses.press("other", 12_600));
    assert!(presses.press("dial", 13_000));
    assert_eq!(press_plan(true), (-2, "PREV"));
    assert_eq!(press_plan(false), (1, "NEXT"));
}

#[test]
fn device_switching_wraps_around_the_listed_devices() {
    let ids: Vec<String> = ["a", "b", "c"].iter().map(|s| s.to_string()).collect();
    assert_eq!(switch_target(&ids, "b", 1), Ok(2));
    assert_eq!(switch_target(&ids, "c", 1), Ok(0));
    assert_eq!(switch_target(&ids, "a", -2), Ok(1));
    assert_eq!(switch_target(&ids, "missing", -2), Ok(1));
    assert_eq!(
        switch_target(&ids[..1].to_vec(), "a", 1),
        Err("at least two active sound output devices are required".to_owned())
    );
}

#[test]
fn audio_actions_report_that_they_are_unsupported() {
    assert_eq!(read_output_snapshot().err().as_deref(), Some(UNSUPPORTED));
}

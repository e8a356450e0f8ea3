use std::collections::VecDeque;
use pixeldeck::settings::SettingsValue;
use pixeldeck::system_monitor::{
    appearance_image, engine_key, gibibytes, history_chart, history_image, loading_image, monitor_image,
    DisplayMetric,
    DisplayMode, HistoryPoint, MonitorSettings, MonitorSnapshot, RenderState,
};

fn snapshot() -> MonitorSnapshot {
    MonitorSnapshot {
        cpu: 23,
        gpu: Some(67),
        cpu_temperature: Some(58),
        gpu_temperature: Some(71),
        memory: 81,
        memory_total_mib: 32 * 1024,
        memory_available_mib: 6 * 1024,
        pagefile_total_mib: 40 * 1024,
        pagefile_available_mib: 18 * 1024,
    }
}

fn history(snapshot: &MonitorSnapshot) -> VecDeque<HistoryPoint> {
    VecDeque::from([HistoryPoint::from_snapshot(snapshot)])
}

/// The overview history chart of a full layout.
fn overview_chart(history: &VecDeque<HistoryPoint>) -> String {
    history_chart(
        history,
        MonitorSettings {
            mode: DisplayMode::Full,
            metric: DisplayMetric::Overview,
        },
    )
}

fn object(entries: &[(&str, &str)]) -> SettingsValue {
    SettingsValue::Object(
        entries
            .iter()
            .map(|(k, v)| (k.to_string(), SettingsValue::String(v.to_string())))
            .collect(),
    )
}

#[test]
fn image_is_native_pixel_art_with_all_three_metrics() {
    let snapshot = snapshot();
    let chart = overview_chart(&history(&snapshot));
    let image = monitor_image(&snapshot, MonitorSettings::default(), &chart);

    assert!(image.starts_with("data:image/svg+xml,"));
    assert!(image.contains("width%3D%22176%22"));
    assert!(image.contains("height%3D%22112%22"));
    assert!(image.contains("shape-rendering%3D%22crispEdges%22"));
    assert!(image.contains("%2320e3ff"));
    assert!(image.contains("%23ff4fd8"));
    assert!(image.contains("%23facc15"));
    assert!(!image.contains("%3Ctext"));
}

#[test]
fn unavailable_gpu_is_rendered_without_panicking() {
    let snapshot = MonitorSnapshot {
        cpu: 1,
        gpu: None,
        cpu_temperature: None,
        gpu_temperature: None,
        memory: 2,
        memory_total_mib: 16 * 1024,
        memory_available_mib: 12 * 1024,
        pagefile_total_mib: 20 * 1024,
        pagefile_available_mib: 10 * 1024,
    };
    let chart = overview_chart(&history(&snapshot));
    let image = monitor_image(&snapshot, MonitorSettings::default(), &chart);
    assert!(image.len() < 50_000);
}

#[test]
fn compact_mode_stays_compact_and_full_mode_contains_plotters_lines() {
    let snapshot = snapshot();
    let history = history(&snapshot);
    let chart = overview_chart(&history);
    let compact = monitor_image(
        &snapshot,
        MonitorSettings {
            mode: DisplayMode::Compact,
            ..Default::default()
        },
        &chart,
    );
    let full = monitor_image(
        &snapshot,
        MonitorSettings {
            mode: DisplayMode::Full,
            ..Default::default()
        },
        &chart,
    );

    assert!(compact.len() < 30_000);
    assert!(full.contains("%3Cpolyline") || full.contains("%3Cpath"));
    assert!(full.contains("%23ff4fd8"));
}

#[test]
fn display_mode_settings_accept_current_and_legacy_names() {
    assert_eq!(
        MonitorSettings::from_settings(&object(&[("mode", "compact")])).mode,
        DisplayMode::Compact
    );
    assert_eq!(
        MonitorSettings::from_settings(&object(&[("mode", "normal")])).mode,
        DisplayMode::Normal
    );
    assert_eq!(
        MonitorSettings::from_settings(&object(&[("mode", "full")])).mode,
        DisplayMode::Full
    );
    assert_eq!(
        MonitorSettings::from_settings(&object(&[("mode", "mini")])).mode,
        DisplayMode::Compact
    );
    assert_eq!(
        MonitorSettings::from_settings(&object(&[("mode", "medium")])).mode,
        DisplayMode::Normal
    );
}

#[test]
fn metric_settings_render_large_temperature_views() {
    let snapshot = snapshot();
    let history = history(&snapshot);
    let settings =
        MonitorSettings::from_settings(&object(&[("mode", "normal"), ("metric", "cpu-temperature")]));
    assert_eq!(settings.metric, DisplayMetric::CpuTemperature);
    let chart = overview_chart(&history);
    let image = monitor_image(&snapshot, settings, &chart);

    assert!(image.contains("%23fb923c"));
    assert!(image.contains("width%3D%229%22%20height%3D%2216%22"));
    assert!(!image.contains("%23080b10"));
    assert!(!image.contains("%23202938"));
    assert!(!image.contains("%231e293b"));
    assert!(image.len() < 40_000);
}

#[test]
fn appearance_reuses_the_last_rendered_state() {
    let snapshot = snapshot();
    let history = history(&snapshot);
    let state = RenderState { snapshot, history };
    let settings = MonitorSettings::default();
    let shown = appearance_image(settings, Some(&state));
    assert!(shown.is_some());
    assert_eq!(shown, history_image(&state.snapshot, settings, &state.history));
}

#[test]
fn appearance_shows_loading_without_a_rendered_state() {
    assert_eq!(
        appearance_image(MonitorSettings::default(), None),
        Some(loading_image())
    );
}

#[test]
fn gibibytes_match_one_decimal_float_formatting() {
    for mib in (0u64..5000).chain([6 * 1024, 26 * 1024, 1536, 1587, 1638, 52, 51, 154]) {
        assert_eq!(gibibytes(mib), format!("{:.1}", mib as f64 / 1024.0), "mib {mib}");
    }
}

#[test]
fn history_image_embeds_the_chart_drawn_from_the_history() {
    let snapshot = snapshot();
    let history = history(&snapshot);
    let settings = MonitorSettings {
        mode: DisplayMode::Full,
        metric: DisplayMetric::Overview,
    };
    let chart = overview_chart(&history);
    assert_eq!(
        history_image(&snapshot, settings, &history),
        Some(monitor_image(&snapshot, settings, &chart))
    );
}

#[test]
fn gpu_engine_keys_start_at_the_adapter_luid() {
    assert_eq!(
        engine_key("pid_1234_luid_0x00000000_0x0000D1A5_phys_0_eng_0_engtype_3D"),
        "_luid_0x00000000_0x0000D1A5_phys_0_eng_0_engtype_3D"
    );
    assert_eq!(engine_key("a_luid_b_luid_c"), "_luid_b_luid_c");
    assert_eq!(engine_key("_luid_"), "_luid_");
    assert_eq!(engine_key("pid_1_luid"), "pid_1_luid");
    assert_eq!(engine_key(""), "");
}

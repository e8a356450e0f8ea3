use pixeldeck::settings::SettingsValue;
use pixeldeck::system_monitor::{
    can_cut_chart, chart_fragment, cpu_load, sample, CpuTimes, DialSettings, DisplayMetric,
    DisplayMode, MemoryStatus, MonitorSettings, Sampler,
};

fn times(idle: u64, kernel: u64, user: u64) -> CpuTimes {
    CpuTimes { idle, kernel, user }
}

#[test]
fn processor_load_is_the_busy_share_of_elapsed_time() {
    assert_eq!(cpu_load(&times(100, 200, 50), &times(150, 300, 150)), 75);
    assert_eq!(cpu_load(&times(0, 0, 0), &times(0, 0, 0)), 0);
    assert_eq!(cpu_load(&times(10, 10, 10), &times(5, 5, 5)), 0);
    assert_eq!(cpu_load(&times(0, 0, 0), &times(0, 100, 0)), 100);
    // Saturated counters: the busy share saturates too.
    assert_eq!(cpu_load(&times(0, 0, 0), &times(0, u64::MAX, u64::MAX)), 1);
}

#[test]
fn samples_convert_memory_to_mebibytes() {
    let snapshot = sample(
        &times(0, 0, 0),
        &times(50, 100, 100),
        Some(MemoryStatus {
            load: 140,
            total_phys: 8 * 1024 * 1024 * 1024,
            avail_phys: 3 * 1024 * 1024 * 1024 + 5,
            total_page_file: 10 * 1024 * 1024 * 1024,
            avail_page_file: 0,
        }),
        Some(40),
        (Some(55), None),
    );
    assert_eq!(snapshot.cpu, 75);
    assert_eq!(snapshot.memory, 100);
    assert_eq!(snapshot.memory_total_mib, 8192);
    assert_eq!(snapshot.memory_available_mib, 3072);
    assert_eq!(snapshot.pagefile_total_mib, 10240);
    assert_eq!(snapshot.gpu, Some(40));
    assert_eq!(snapshot.cpu_temperature, Some(55));
    let blank = sample(&times(0, 0, 0), &times(0, 0, 0), None, None, (None, None));
    assert_eq!(blank.memory_total_mib, 0);
    let idle = Sampler::new().snapshot();
    assert_eq!((idle.cpu, idle.gpu, idle.memory), (0, None, 0));
}

#[test]
fn each_dial_keeps_its_own_layout() {
    let mut dials = DialSettings::new();
    let full = MonitorSettings {
        mode: DisplayMode::Full,
        metric: DisplayMetric::Gpu,
    };
    assert!(dials.get("a") == MonitorSettings::default());
    dials.set("a".to_owned(), full);
    dials.set("b".to_owned(), MonitorSettings::from_settings(&SettingsValue::Null));
    assert!(dials.get("a") == full);
    let compact = MonitorSettings {
        mode: DisplayMode::Compact,
        metric: DisplayMetric::Overview,
    };
    dials.set("a".to_owned(), compact);
    assert!(dials.get("a") == compact);
    assert!(dials.get("b") == MonitorSettings::default());
}

#[test]
fn chart_documents_are_cut_between_their_first_tag_and_last_end() {
    let svg = "<svg a=\"1\"><path/></svg>";
    assert!(can_cut_chart(svg));
    assert_eq!(chart_fragment(svg), Some("<path/>".to_owned()));
    assert!(can_cut_chart(""));
    assert_eq!(chart_fragment(""), None);
    assert!(!can_cut_chart("</svg><svg>"));
}

#[test]
fn the_history_keeps_the_last_thirty_samples() {
    let mut history = std::collections::VecDeque::new();
    for cpu in 0..31u8 {
        let snapshot = pixeldeck::system_monitor::MonitorSnapshot {
            cpu,
            gpu: None,
            cpu_temperature: None,
            gpu_temperature: None,
            memory: 0,
            memory_total_mib: 0,
            memory_available_mib: 0,
            pagefile_total_mib: 0,
            pagefile_available_mib: 0,
        };
        pixeldeck::system_monitor::push_history(
            &mut history,
            pixeldeck::system_monitor::HistoryPoint::from_snapshot(&snapshot),
        );
    }
    assert_eq!(history.len(), pixeldeck::system_monitor::HISTORY_LENGTH);
    assert_eq!(history[0].cpu, 1);
    assert_eq!(history[29].cpu, 30);
}

#[test]
fn temperatures_are_queried_at_most_every_five_seconds() {
    let mut schedule = pixeldeck::system_monitor::TemperatureSchedule::new();
    assert!(schedule.launch_due(1_000));
    schedule.launched(true);
    assert!(!schedule.launch_due(9_000));
    schedule.receive(Some(60), None);
    assert_eq!((schedule.cpu, schedule.gpu), (Some(60), None));
    assert!(!schedule.launch_due(5_999));
    assert!(schedule.launch_due(6_000));
    schedule.launched(false);
    assert!(!schedule.launch_due(7_000));
    assert!(schedule.launch_due(11_000));
}

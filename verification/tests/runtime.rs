use pixeldeck::fetch::Failure;
use pixeldeck::live::LiveWorker;
use pixeldeck::model::ActionKind;
use pixeldeck::render::{currency, loading, money, offline};
use pixeldeck::runtime::{request_key, retry_delay, Frame, Runtime, MAX_CACHE_ENTRIES};
use pixeldeck::settings::{SettingsNumber, SettingsValue};

/// A worker that never finishes on its own.
struct Idle;

impl LiveWorker for Idle {
    fn is_finished(&self) -> bool {
        false
    }

    fn stop(self) {}
}

#[derive(Clone, Debug, PartialEq)]
struct CurrencyData {
    pair: String,
    price: f64,
    change_percent: f64,
}

fn number_2(value: f64) -> String {
    let value = if value.abs() < 0.005 { 0.0 } else { value };
    money(&format!("{value:.2}"))
}

/// The currency frame the plugin draws for `data`.
fn currency_frame(data: &CurrencyData) -> String {
    currency(
        &data.pair,
        &number_2(data.price),
        &format!("{:+.2}%", data.change_percent),
        data.change_percent >= 0.0,
    )
}

/// The first frame of a widget: its request's cached data, or the loading frame.
fn initial_frame(
    runtime: &mut Runtime<CurrencyData, Idle>,
    kind: ActionKind,
    settings: &SettingsValue,
) -> (Option<CurrencyData>, String) {
    let key = request_key(kind, settings).unwrap();
    let data = runtime.cached_data(kind, &key);
    let image = data.as_ref().map_or_else(|| loading(kind), currency_frame);
    (data, image)
}

fn pair_settings(interval: u64) -> SettingsValue {
    SettingsValue::Object(vec![
        ("from".to_owned(), SettingsValue::String("USD".to_owned())),
        ("to".to_owned(), SettingsValue::String("THB".to_owned())),
        (
            "interval".to_owned(),
            SettingsValue::Number(SettingsNumber::PosInt(interval)),
        ),
    ])
}

fn quote() -> CurrencyData {
    CurrencyData {
        pair: "USDTHB".to_owned(),
        price: 32.5,
        change_percent: 0.25,
    }
}

#[test]
fn cached_frame_replaces_loading_after_context_disappears() {
    let settings = pair_settings(10_000);
    let mut runtime: Runtime<CurrencyData, Idle> = Runtime::new();
    let (data, first_image) = initial_frame(&mut runtime, ActionKind::Currency, &settings);
    assert!(data.is_none());
    assert_eq!(first_image, loading(ActionKind::Currency));

    let cached = quote();
    runtime.cache_data(
        ActionKind::Currency,
        request_key(ActionKind::Currency, &settings).unwrap(),
        cached.clone(),
    );
    let (data, cached_image) = initial_frame(&mut runtime, ActionKind::Currency, &settings);
    assert!(data.is_some());
    assert_eq!(cached_image, currency_frame(&cached));
    assert_ne!(cached_image, first_image);
}

#[test]
fn identical_requests_share_one_scheduler_group() {
    let mut runtime: Runtime<CurrencyData, Idle> = Runtime::new();
    let now = 1_000;
    for (context, interval) in [("one", 5_000), ("two", 60_000)] {
        let settings = pair_settings(interval);
        let key = request_key(ActionKind::Currency, &settings).unwrap();
        let finished = runtime.worker_finished();
        runtime.appear(
            context.to_owned(),
            ActionKind::Currency,
            settings,
            key,
            None,
            loading(ActionKind::Currency),
            now,
            finished,
        );
    }
    let jobs = runtime.collect_jobs(now);
    assert_eq!(jobs.len(), 1);
    assert_eq!(jobs[0].targets.len(), 2);
}

#[test]
fn an_unreachable_source_leaves_the_current_frame_alone() {
    let settings = pair_settings(10_000);
    let shown = currency_frame(&quote());
    let offline_failure = || Failure {
        message: "connection refused".to_owned(),
        unreachable: true,
    };
    let mut runtime: Runtime<CurrencyData, Idle> = Runtime::new();
    let now = 5_000;
    for (context, data) in [("with-data", Some(quote())), ("cold", None)] {
        let finished = runtime.worker_finished();
        runtime.appear(
            context.to_owned(),
            ActionKind::Currency,
            settings.clone_value(),
            request_key(ActionKind::Currency, &settings).unwrap(),
            data,
            shown.clone(),
            now,
            finished,
        );
    }
    runtime.collect_jobs(now);
    for context in ["with-data", "cold"] {
        runtime.finish(context, 0, Err(offline_failure()), now);
    }

    let with_data = runtime.entry("with-data").unwrap();
    assert_eq!(with_data.last_image.as_deref(), Some(shown.as_str()));
    assert!(with_data.data.is_some());
    assert!(with_data.next_due > now);

    // A widget that has never had data says so instead of raising a data error.
    let cold = runtime.entry("cold").unwrap();
    assert_eq!(
        cold.last_image.as_deref(),
        Some(offline(ActionKind::Currency).as_str())
    );
}

trait CloneValue {
    fn clone_value(&self) -> Self;
}

impl CloneValue for SettingsValue {
    fn clone_value(&self) -> Self {
        match self {
            SettingsValue::Null => SettingsValue::Null,
            SettingsValue::Bool(b) => SettingsValue::Bool(*b),
            SettingsValue::Number(SettingsNumber::PosInt(v)) => {
                SettingsValue::Number(SettingsNumber::PosInt(*v))
            }
            SettingsValue::Number(SettingsNumber::NegInt(v)) => {
                SettingsValue::Number(SettingsNumber::NegInt(*v))
            }
            SettingsValue::Number(SettingsNumber::Float) => {
                SettingsValue::Number(SettingsNumber::Float)
            }
            SettingsValue::String(s) => SettingsValue::String(s.clone()),
            SettingsValue::Array(items) => {
                SettingsValue::Array(items.iter().map(|v| v.clone_value()).collect())
            }
            SettingsValue::Object(entries) => SettingsValue::Object(
                entries
                    .iter()
                    .map(|(k, v)| (k.clone(), v.clone_value()))
                    .collect(),
            ),
        }
    }
}

#[test]
fn a_result_of_an_older_request_is_dropped() {
    let mut runtime: Runtime<CurrencyData, Idle> = Runtime::new();
    let settings = pair_settings(10_000);
    let key = request_key(ActionKind::Currency, &settings).unwrap();
    let finished = runtime.worker_finished();
    runtime.appear(
        "key".to_owned(),
        ActionKind::Currency,
        settings.clone_value(),
        key.clone(),
        None,
        loading(ActionKind::Currency),
        0,
        finished,
    );
    runtime.collect_jobs(0);
    let updated = runtime.update(
        "key",
        pair_settings(20_000),
        key,
        None,
        loading(ActionKind::Currency),
        7,
    );
    assert_eq!(updated, Some(loading(ActionKind::Currency)));
    let frame = runtime.finish("key", 0, Ok(quote()), 9);
    assert!(matches!(frame, Frame::Keep));
    let entry = runtime.entry("key").unwrap();
    assert!(entry.data.is_none());
    assert!(!entry.busy);
    assert_eq!(entry.next_due, 9);
    assert_eq!(entry.generation, 1);
}

#[test]
fn fresh_data_is_cached_and_drawn_once() {
    let mut runtime: Runtime<CurrencyData, Idle> = Runtime::new();
    let settings = pair_settings(10_000);
    let key = request_key(ActionKind::Currency, &settings).unwrap();
    assert_eq!(key, "USD:THB");
    let finished = runtime.worker_finished();
    runtime.appear(
        "key".to_owned(),
        ActionKind::Currency,
        settings,
        key.clone(),
        None,
        loading(ActionKind::Currency),
        0,
        finished,
    );
    let jobs = runtime.collect_jobs(0);
    assert_eq!(jobs[0].targets, vec![("key".to_owned(), 0)]);
    assert_eq!(runtime.entry("key").unwrap().next_due, 10_000);
    assert!(runtime.collect_jobs(5_000).is_empty());

    let frame = runtime.finish("key", 0, Ok(quote()), 6_000);
    assert!(matches!(frame, Frame::Widget));
    assert_eq!(runtime.cached_data(ActionKind::Currency, &key), Some(quote()));
    let image = currency_frame(&quote());
    assert_eq!(runtime.show("key", image.clone()), Some(image.clone()));
    assert_eq!(runtime.show("key", image), None);
    assert_eq!(runtime.show("gone", loading(ActionKind::Gold)), None);
}

#[test]
fn a_failure_without_data_shows_the_error_once() {
    let mut runtime: Runtime<CurrencyData, Idle> = Runtime::new();
    let settings = pair_settings(10_000);
    let key = request_key(ActionKind::Currency, &settings).unwrap();
    let finished = runtime.worker_finished();
    runtime.appear(
        "key".to_owned(),
        ActionKind::Currency,
        settings,
        key,
        None,
        loading(ActionKind::Currency),
        0,
        finished,
    );
    let failure = || Failure {
        message: "invalid currency pair".to_owned(),
        unreachable: false,
    };
    runtime.collect_jobs(0);
    let frame = runtime.finish("key", 0, Err(failure()), 1);
    let first = match frame {
        Frame::Image(image) => image,
        _ => panic!("the error frame must be shown"),
    };
    assert_eq!(first, pixeldeck::render::error("invalid currency pair"));
    runtime.collect_jobs(20_000);
    assert!(matches!(runtime.finish("key", 0, Err(failure()), 20_001), Frame::Keep));
    assert!(matches!(runtime.finish("missing", 0, Err(failure()), 1), Frame::Keep));
}

#[test]
fn unreachable_retries_back_off_to_the_ceiling() {
    let settings = pair_settings(10_000);
    assert_eq!(retry_delay(ActionKind::Currency, &settings, 0), 10_000);
    assert_eq!(retry_delay(ActionKind::Currency, &settings, 1), 10_000);
    assert_eq!(retry_delay(ActionKind::Currency, &settings, 3), 30_000);
    assert_eq!(retry_delay(ActionKind::Currency, &settings, 50), 80_000);
    let slow = pair_settings(60_000);
    assert_eq!(retry_delay(ActionKind::Currency, &slow, 8), 300_000);
    let empty = SettingsValue::Object(vec![]);
    assert_eq!(retry_delay(ActionKind::AirQuality, &empty, 2), 3_600_000);
}

#[test]
fn the_cache_forgets_the_least_recently_used_request() {
    let mut runtime: Runtime<u32, Idle> = Runtime::new();
    for n in 0..MAX_CACHE_ENTRIES as u32 {
        runtime.cache_data(ActionKind::Stock, format!("S{n}"), n);
    }
    assert_eq!(runtime.cached_data(ActionKind::Stock, "S0"), Some(0));
    runtime.cache_data(ActionKind::Stock, "NEW".to_owned(), 999);
    assert_eq!(runtime.cached_data(ActionKind::Stock, "S1"), None);
    assert_eq!(runtime.cached_data(ActionKind::Stock, "S0"), Some(0));
    assert_eq!(runtime.cached_data(ActionKind::Stock, "NEW"), Some(999));
    assert_eq!(runtime.cached_data(ActionKind::Gold, "NEW"), None);
}

#[test]
fn request_keys_name_what_is_fetched() {
    let empty = SettingsValue::Object(vec![]);
    assert_eq!(request_key(ActionKind::Gold, &empty).as_deref(), Some("gold"));
    assert_eq!(
        request_key(ActionKind::WorkHours, &empty).as_deref(),
        Some("work-hours")
    );
    assert_eq!(
        request_key(ActionKind::Weather, &empty).as_deref(),
        Some("13.72:100.41")
    );
    assert_eq!(
        request_key(ActionKind::AirQuality, &empty).as_deref(),
        Some("https://www.iqair.com/th-en/thailand/bangkok/nong-khaem")
    );
    let lower = SettingsValue::Object(vec![
        ("from".to_owned(), SettingsValue::String(" eur ".to_owned())),
        ("to".to_owned(), SettingsValue::String("jpy".to_owned())),
    ]);
    assert_eq!(
        request_key(ActionKind::Currency, &lower).as_deref(),
        Some("EUR:JPY")
    );
    assert_eq!(request_key(ActionKind::Stock, &empty), None);
    assert_eq!(request_key(ActionKind::PowerShell, &empty), None);
}

#[test]
fn the_worker_stops_with_the_last_widget() {
    let mut runtime: Runtime<u32, Idle> = Runtime::new();
    let empty = || SettingsValue::Object(vec![]);
    let finished = runtime.worker_finished();
    assert!(runtime.appear(
        "a".to_owned(),
        ActionKind::Gold,
        empty(),
        "gold".to_owned(),
        None,
        loading(ActionKind::Gold),
        0,
        finished,
    ));
    runtime.set_worker(Idle);
    let finished = runtime.worker_finished();
    assert!(!runtime.appear(
        "b".to_owned(),
        ActionKind::Gold,
        empty(),
        "gold".to_owned(),
        None,
        loading(ActionKind::Gold),
        0,
        finished,
    ));
    assert!(runtime.disappear("a").is_none());
    assert!(runtime.entry("b").is_some());
    let released = runtime.disappear("b");
    assert!(released.is_some());
    assert!(runtime.entry("b").is_none());
    let finished = runtime.worker_finished();
    assert!(runtime.appear(
        "c".to_owned(),
        ActionKind::Gold,
        empty(),
        "gold".to_owned(),
        None,
        loading(ActionKind::Gold),
        0,
        finished,
    ));
}

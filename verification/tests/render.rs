use pixeldeck::model::ActionKind;
use pixeldeck::render::{
    currency, error, gold, gold_currency, loading, money, offline, stock, work_hours, work_window,
    StockQuote, WorkClock,
};
use pixeldeck::settings::{SettingsNumber, SettingsValue};

fn number_2(value: f64) -> String {
    let value = if value.abs() < 0.005 { 0.0 } else { value };
    money(&format!("{value:.2}"))
}

fn signed_number_2(value: f64) -> String {
    if value >= 0.0 {
        format!("+{}", number_2(value))
    } else {
        number_2(value)
    }
}

#[test]
fn monetary_values_use_grouping_and_exactly_two_decimals() {
    assert_eq!(number_2(1_000.0), "1,000.00");
    assert_eq!(number_2(35.1234), "35.12");
    assert_eq!(number_2(-12_345.678), "-12,345.68");
    assert_eq!(signed_number_2(9_876.5), "+9,876.50");
    assert_eq!(number_2(-0.001), "0.00");
}

#[test]
fn grouping_works_on_the_written_number() {
    assert_eq!(money("1234567.891"), "1,234,567.891");
    assert_eq!(money("123"), "123.00");
    assert_eq!(money("-100.5"), "-100.5");
    assert_eq!(money("-1000"), "-1,000.00");
    assert_eq!(money(""), ".00");
}

#[test]
fn generated_images_are_small_encoded_svg_frames() {
    let image = currency("USDTHB", &number_2(35.1234), &format!("{:+.2}%", 0.25), true);
    assert!(image.starts_with("data:image/svg+xml,"));
    assert!(image.contains("width%3D%22144%22"));
    assert!(image.contains("fill%3D%22%23000%22"));
    assert!(!image.contains("%230b0f15"));
    assert!(!image.contains("M24%2018v112"));
    assert!(!image.contains("%3Ctext"));
    assert!(image.len() < 50_000);
}

#[test]
fn frames_use_their_accent() {
    assert!(currency("USDTHB", "35.12", "-0.25%", false).contains("%23ff3155"));
    assert!(currency("USDTHB", "35.12", "+0.25%", true).contains("%2322c55e"));
    assert!(loading(ActionKind::Gold).contains("%2320e3ff"));
    assert!(offline(ActionKind::Gold).contains("%238c9aaa"));
    assert!(error("boom").contains("%23ff3155"));
    assert_ne!(loading(ActionKind::Gold), loading(ActionKind::Stock));
}

#[test]
fn long_gold_prices_are_drawn_smaller() {
    assert_ne!(gold("USD", "2,345.67"), gold("USD", "82,345.67"));
    let settings = SettingsValue::Object(vec![(
        "currency".to_owned(),
        SettingsValue::String("thb".to_owned()),
    )]);
    assert_eq!(gold_currency(&settings), "THB");
    assert_eq!(gold_currency(&SettingsValue::Object(vec![])), "USD");
}

#[test]
fn stock_titles_prefer_the_display_name() {
    let quote = |display_name: &str| StockQuote {
        symbol: "AAPL".to_owned(),
        display_name: display_name.to_owned(),
        price: "189.20".to_owned(),
        open: None,
        secondary: "+1.20%".to_owned(),
        rising: true,
    };
    assert_ne!(stock(&quote("")), stock(&quote("apple")));
    assert_eq!(stock(&quote("")), stock(&quote("")));
}

#[test]
fn work_hours_follow_the_settings_and_the_clock() {
    let settings = SettingsValue::Object(vec![
        (
            "startH".to_owned(),
            SettingsValue::Number(SettingsNumber::PosInt(8)),
        ),
        ("endH".to_owned(), SettingsValue::String("30".to_owned())),
    ]);
    assert_eq!(work_window(&settings), (8, 23));
    assert_eq!(work_window(&SettingsValue::Object(vec![])), (9, 18));
    let monday = WorkClock {
        weekday: 0,
        hour: 10,
        minute: 30,
    };
    let sunday = WorkClock {
        weekday: 6,
        hour: 10,
        minute: 30,
    };
    let empty = SettingsValue::Object(vec![]);
    let working = work_hours(&empty, &monday, "18.7");
    assert!(working.contains("%23ff9b57"));
    assert!(working.contains("width%3D%2218.7%22"));
    assert!(!work_hours(&empty, &sunday, "18.7").contains("%23ff9b57"));
}

#[test]
fn error_frames_depend_on_the_clipped_upper_case_message() {
    assert_eq!(error("  connection refused "), error("CONNECTION REFUSED"));
    assert_eq!(
        error("a message that is much longer than the frame"),
        error("A MESSAGE THAT IS MUCH LONGER")
    );
    assert_ne!(error("connection refused"), error("connection reset"));
    assert!(error("").contains("%23ff3155"));
}

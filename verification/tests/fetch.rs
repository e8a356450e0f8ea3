use pixeldeck::fetch::{
    currency_pair, decode_html, iqair_url, parse_air_quality, stock_symbol, try_parse_air_quality,
    yahoo_chart_url, iqair_page,
};
use pixeldeck::settings::SettingsValue;

fn settings(entries: &[(&str, &str)]) -> SettingsValue {
    SettingsValue::Object(
        entries
            .iter()
            .map(|(k, v)| (k.to_string(), SettingsValue::String(v.to_string())))
            .collect(),
    )
}

#[test]
fn parses_the_iqair_badge_shape_used_by_the_source_widget() {
    let html = r#"<div class="x aqi-legend-bg-green"><p> 42 </p><span>US AQI</span></div><p class="font-body-l-medium">Good</p>"#;
    let parsed = parse_air_quality(html).unwrap();
    assert_eq!(parsed.aqi, 42);
    assert_eq!(parsed.level, "Good");
}

#[test]
fn badge_levels_are_trimmed_and_decoded() {
    let html = r#"<div class='aqi-legend-bg-red'><p>151</p>US AQI</div> <p class="x font-body-l-medium y">  Unhealthy &amp; rising </p>"#;
    let parsed = parse_air_quality(html).unwrap();
    assert_eq!(parsed.aqi, 151);
    assert_eq!(parsed.level, "Unhealthy & rising");
}

#[test]
fn without_a_badge_the_last_number_before_the_label_is_read() {
    let html = "<b> 12 </b><i>7</i><span>us aqi</span><b>99</b>";
    let parsed = parse_air_quality(html).unwrap();
    assert_eq!(parsed.aqi, 7);
    assert_eq!(parsed.level, "");
}

#[test]
fn pages_without_the_label_or_a_number_are_errors() {
    assert_eq!(
        parse_air_quality("<p>42</p>").err().as_deref(),
        Some("US AQI label not found")
    );
    assert_eq!(
        parse_air_quality("<p>no number</p>US AQI").err().as_deref(),
        Some("AQI value not found")
    );
}

#[test]
fn the_lookbehind_counts_bytes() {
    // 3 + 2 * 1998 bytes before the label: all of it is searched.
    let near = format!(">7<{}US AQI", "é".repeat(1998));
    assert_eq!(parse_air_quality(&near).unwrap().aqi, 7);
    // 4003 bytes: the window starts just after the number.
    let far = format!(">7<{}US AQI", "é".repeat(2000));
    assert_eq!(
        parse_air_quality(&far).err().as_deref(),
        Some("AQI value not found")
    );
    // 4004 bytes: the window would start inside a character.
    let split = format!(">7<{}xUS AQI", "é".repeat(2000));
    assert!(try_parse_air_quality(&split).is_none());
}

#[test]
fn html_entities_are_decoded_once_each() {
    assert_eq!(
        decode_html("Tom &amp; Jerry&#39;s &quot;x&quot;&nbsp;y"),
        "Tom & Jerry's \"x\" y"
    );
    assert_eq!(decode_html("&amp;amp;"), "&amp;");
    assert_eq!(decode_html("plain"), "plain");
}

#[test]
fn bad_currency_settings_are_rejected_before_any_request() {
    assert_eq!(
        currency_pair(&settings(&[("from", "US1"), ("to", "THB")])),
        Err("invalid currency pair".to_owned())
    );
    assert_eq!(currency_pair(&settings(&[])), Ok("USDTHB".to_owned()));
    assert_eq!(
        currency_pair(&settings(&[("from", "eur"), ("to", " jpy ")])),
        Ok("EURJPY".to_owned())
    );
}

#[test]
fn stock_symbols_are_checked() {
    assert_eq!(stock_symbol(&settings(&[])), Ok("AAPL".to_owned()));
    assert_eq!(
        stock_symbol(&settings(&[("symbol", "brk.b")])),
        Ok("BRK.B".to_owned())
    );
    assert_eq!(
        stock_symbol(&settings(&[("symbol", "^gspc")])),
        Ok("^GSPC".to_owned())
    );
    assert_eq!(
        stock_symbol(&settings(&[("symbol", "A B")])),
        Err("invalid stock symbol".to_owned())
    );
    assert_eq!(
        stock_symbol(&settings(&[("symbol", &"X".repeat(25))])),
        Err("invalid stock symbol".to_owned())
    );
    assert_eq!(
        stock_symbol(&settings(&[("symbol", &"X".repeat(24))])),
        Ok("X".repeat(24))
    );
}

#[test]
fn only_https_iqair_pages_are_read() {
    assert_eq!(
        iqair_url(&settings(&[])),
        Ok("https://www.iqair.com/th-en/thailand/bangkok/nong-khaem".to_owned())
    );
    assert_eq!(
        iqair_url(&settings(&[("url", "www.iqair.com/th-en/x")])),
        Ok("https://www.iqair.com/th-en/x".to_owned())
    );
    assert_eq!(
        iqair_url(&settings(&[("url", "https://IQAIR.com/a")])),
        Ok("https://iqair.com/a".to_owned())
    );
    let refused = Err("only HTTPS IQAir location URLs are allowed".to_owned());
    assert_eq!(
        iqair_url(&settings(&[("url", "http://www.iqair.com/x")])),
        refused
    );
    assert_eq!(
        iqair_url(&settings(&[("url", "https://example.com/iqair.com")])),
        refused
    );
}

#[test]
fn the_fallback_looks_up_the_page_location() {
    assert_eq!(
        pixeldeck::fetch::location_name("/th-en/thailand/bangkok/nong-khaem"),
        "nong khaem"
    );
    assert_eq!(pixeldeck::fetch::location_name("/us/new-york//"), "new york");
    assert_eq!(pixeldeck::fetch::location_name("/"), "Bangkok");
    assert_eq!(pixeldeck::fetch::location_name(""), "Bangkok");
}

#[test]
fn yahoo_chart_url_encodes_the_symbol() {
    assert_eq!(
        yahoo_chart_url("query1.finance.yahoo.com", "USDTHB=X", "1d", "1d"),
        "https://query1.finance.yahoo.com/v8/finance/chart/USDTHB%3DX?interval=1d&range=1d"
    );
    assert_eq!(
        yahoo_chart_url("query2.finance.yahoo.com", "^SET.BK", "1mo", "1mo"),
        "https://query2.finance.yahoo.com/v8/finance/chart/%5ESET.BK?interval=1mo&range=1mo"
    );
    assert_eq!(
        yahoo_chart_url("h", "a-b_c.d~e f", "i", "r"),
        "https://h/v8/finance/chart/a-b_c.d~e%20f?interval=i&range=r"
    );
}

#[test]
fn iqair_pages_name_the_place_from_their_path() {
    assert_eq!(
        iqair_page(&settings(&[])),
        Ok((
            "https://www.iqair.com/th-en/thailand/bangkok/nong-khaem".to_owned(),
            "nong khaem".to_owned()
        ))
    );
    assert_eq!(
        iqair_page(&settings(&[("url", "https://www.iqair.com/us/new-york/")])),
        Ok(("https://www.iqair.com/us/new-york/".to_owned(), "new york".to_owned()))
    );
    assert_eq!(
        iqair_page(&settings(&[("url", "https://iqair.com")])),
        Ok(("https://iqair.com/".to_owned(), "Bangkok".to_owned()))
    );
    assert_eq!(
        iqair_page(&settings(&[("url", "http://www.iqair.com/x")])),
        Err("only HTTPS IQAir location URLs are allowed".to_owned())
    );
}

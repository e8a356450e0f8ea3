//! SVG frames of the widget actions (144x144 key images).

use vstd::prelude::*;
use crate::model::{clamp, ActionKind, AirQualityData, WeatherData};
use crate::pixel::{data_uri, percent_encoded, svg_uri_prefix, text_path, text_path_spec};
use crate::settings::{SettingsValue, setting_i64, setting_i64_opt, setting_string, setting_string_spec};
use crate::text::{
    chars_of, decimal, eq_chars_str, int_text, push_char, push_chars, push_i128, push_str,
    push_u64, string_of, to_uppercase, trim_chars, trimmed, uppercase,
};
use vstd::utf8::encode_utf8;

verus! {

broadcast use vstd::string::group_string_axioms;

pub const CYAN: &'static str = "#20e3ff";
pub const MAGENTA: &'static str = "#ff4fd8";
pub const YELLOW: &'static str = "#facc15";
pub const GREEN: &'static str = "#22c55e";
pub const RED: &'static str = "#ff3155";
pub const WHITE: &'static str = "#f8fafc";
pub const MUTED: &'static str = "#8c9aaa";
/// Colour of the small hint lines at the bottom of a frame.
pub const HINT: &'static str = "#586576";

pub const SHELL_OPEN: &'static str = "<svg xmlns=\"http://www.w3.org/2000/svg\" width=\"144\" height=\"144\" viewBox=\"0 0 144 144\" shape-rendering=\"crispEdges\">\n<rect width=\"144\" height=\"144\" fill=\"#000\"/>\n<path d=\"M9 9h126v5H9z\" fill=\"";
pub const SHELL_ACCENT_END: &'static str = "\"/>\n";
pub const SHELL_CLOSE: &'static str = "\n</svg>";
pub const LOADING_BAR: &'static str = "<path d=\"M42 91h60\" stroke=\"#20e3ff\" stroke-width=\"5\" stroke-dasharray=\"8 6\"/>";

/// The frame document: black key, accent bar at the top, then `content`.
pub open spec fn shell_svg(accent: Seq<char>, content: Seq<char>) -> Seq<char> {
    SHELL_OPEN@ + accent + SHELL_ACCENT_END@ + content + SHELL_CLOSE@
}

/// The frame as a data URI.
pub open spec fn shell_uri(accent: Seq<char>, content: Seq<char>) -> Seq<char> {
    svg_uri_prefix() + percent_encoded(encode_utf8(shell_svg(accent, content)))
}

/// A frame around `content` with an accent bar, as a data URI.
pub fn shell(accent: &str, content: &str) -> (uri: String)
    ensures
        uri@ == shell_uri(accent@, content@),
{
    let mut svg = String::new();
    push_str(&mut svg, SHELL_OPEN);
    push_str(&mut svg, accent);
    push_str(&mut svg, SHELL_ACCENT_END);
    push_str(&mut svg, content);
    push_str(&mut svg, SHELL_CLOSE);
    data_uri(svg.as_str())
}

/// `value` trimmed and cut to `max` characters; a cut text ends in `~` when there is room.
pub open spec fn clipped_spec(value: Seq<char>, max: nat) -> Seq<char> {
    let t = trimmed(value);
    if t.len() > max {
        if max > 1 {
            t.take(max - 1).push('~')
        } else {
            t.take(max as int)
        }
    } else {
        t
    }
}

/// `value` trimmed and cut to at most `max` characters, marking a cut with `~`.
pub fn clipped(value: &str, max: usize) -> (r: String)
    ensures
        r@ == clipped_spec(value@, max as nat),
        r@.len() <= max,
{
    let t = trim_chars(&chars_of(value));
    let mut out: Vec<char> = Vec::new();
    let keep = if t.len() > max { max } else { t.len() };
    let mut i: usize = 0;
    while i < keep
        invariant
            i <= keep <= t.len(),
            keep <= max,
            out@ == t@.take(i as int),
        decreases keep - i,
    {
        out.push(t[i]);
        assert(t@.take(i + 1) == t@.take(i as int).push(t@[i as int]));
        i = i + 1;
    }
    if t.len() > max && max > 1 {
        out.pop();
        out.push('~');
        assert(t@.take(max as int).drop_last() == t@.take(max - 1));
    }
    string_of(&out)
}

/// The title of an action's loading frame.
pub open spec fn loading_label(kind: ActionKind) -> Seq<char> {
    match kind {
        ActionKind::Gold => "GOLD"@,
        ActionKind::Currency => "FX RATE"@,
        ActionKind::Stock => "STOCK"@,
        ActionKind::AirQuality => "AIR QUALITY"@,
        ActionKind::Weather => "WEATHER"@,
        ActionKind::WorkHours => "WORK CLOCK"@,
        ActionKind::PowerShell => "WIDGET"@,
    }
}

fn loading_title(kind: ActionKind) -> (r: &'static str)
    ensures
        r@ == loading_label(kind),
{
    match kind {
        ActionKind::Gold => "GOLD",
        ActionKind::Currency => "FX RATE",
        ActionKind::Stock => "STOCK",
        ActionKind::AirQuality => "AIR QUALITY",
        ActionKind::Weather => "WEATHER",
        ActionKind::WorkHours => "WORK CLOCK",
        ActionKind::PowerShell => "WIDGET",
    }
}

/// Content of the frame shown while an action waits for its first data.
pub open spec fn loading_content(kind: ActionKind) -> Seq<char> {
    text_path_spec(loading_label(kind), 7200, 62, 14, WHITE@) + text_path_spec(
        "LOADING"@,
        7200,
        116,
        10,
        MUTED@,
    ) + LOADING_BAR@
}

/// The frame shown while an action waits for its first data.
pub fn loading(kind: ActionKind) -> (uri: String)
    ensures
        uri@ == shell_uri(CYAN@, loading_content(kind)),
{
    let mut content = text_path(loading_title(kind), 7200, 62, 14, WHITE);
    let second = text_path("LOADING", 7200, 116, 10, MUTED);
    push_str(&mut content, second.as_str());
    push_str(&mut content, LOADING_BAR);
    shell(CYAN, content.as_str())
}

/// Content of the frame shown while a widget that has never had data cannot reach its
/// source.
pub open spec fn offline_content(kind: ActionKind) -> Seq<char> {
    text_path_spec(loading_label(kind), 7200, 62, 14, WHITE@) + text_path_spec(
        "OFFLINE"@,
        7200,
        116,
        10,
        MUTED@,
    )
}

/// The frame shown while a widget that has never had data cannot reach its source.
pub fn offline(kind: ActionKind) -> (uri: String)
    ensures
        uri@ == shell_uri(MUTED@, offline_content(kind)),
{
    let mut content = text_path(loading_title(kind), 7200, 62, 14, WHITE);
    push_str(&mut content, text_path("OFFLINE", 7200, 116, 10, MUTED).as_str());
    shell(MUTED, content.as_str())
}

/// Content of the frame that reports a failed refresh.
pub open spec fn error_content(message: Seq<char>) -> Seq<char> {
    text_path_spec("!"@, 7200, 70, 44, RED@) + text_path_spec("DATA ERROR"@, 7200, 101, 13, RED@)
        + text_path_spec(uppercase(clipped_spec(message, 22)), 7200, 122, 7, MUTED@)
}

/// The frame that reports a failed refresh, with the start of the message.
pub fn error(message: &str) -> (uri: String)
    ensures
        uri@ == shell_uri(RED@, error_content(message@)),
{
    let label = "DATA ERROR";
    let mut content = text_path("!", 7200, 70, 44, RED);
    push_str(&mut content, text_path(label, 7200, 101, 13, RED).as_str());
    let short = clipped(message, 22);
    let upper = to_uppercase(short.as_str());
    push_str(&mut content, text_path(upper.as_str(), 7200, 122, 7, MUTED).as_str());
    shell(RED, content.as_str())
}

/// `needle` occurs somewhere in `text`.
pub open spec fn occurs_in(needle: Seq<char>, text: Seq<char>) -> bool {
    exists|i: int| 0 <= i && i + needle.len() <= text.len() && #[trigger] text.subrange(i, i + needle.len()) == needle
}

/// The error frame shows only the trimmed, clipped and upper-cased message: two messages
/// that agree on that give the same frame.
pub proof fn lemma_error_depends_on_clipped_message(m1: Seq<char>, m2: Seq<char>)
    requires
        uppercase(clipped_spec(m1, 22)) == uppercase(clipped_spec(m2, 22)),
    ensures
        shell_uri(RED@, error_content(m1)) == shell_uri(RED@, error_content(m2)),
{
}

/// The red accent's bytes, percent-encoded.
proof fn lemma_red_encoded()
    ensures
        percent_encoded(encode_utf8(RED@)) == "%23ff3155"@,
{
    reveal_strlit("#ff3155");
    reveal_strlit("%23ff3155");
    let bytes = seq![35u8, 102u8, 102u8, 51u8, 49u8, 53u8, 53u8];
    assert(vstd::utf8::is_ascii_chars(RED@));
    vstd::utf8::is_ascii_chars_encode_utf8(RED@);
    assert(encode_utf8(RED@) =~= bytes);
    let b6 = bytes.drop_last();
    let b5 = b6.drop_last();
    let b4 = b5.drop_last();
    let b3 = b4.drop_last();
    let b2 = b3.drop_last();
    let b1 = b2.drop_last();
    assert(b1 =~= seq![35u8]);
    assert(b1.drop_last() =~= Seq::<u8>::empty());
    assert(crate::pixel::hex_digit(2) == '2');
    assert(crate::pixel::hex_digit(3) == '3');
    assert(!crate::pixel::unreserved(35u8));
    assert(crate::pixel::encode_byte(35u8) =~= seq!['%', '2', '3']);
    assert(percent_encoded(b1.drop_last()) =~= Seq::<char>::empty());
    assert(b1.last() == 35u8);
    assert(percent_encoded(b1) =~= Seq::<char>::empty() + crate::pixel::encode_byte(35u8));
    assert(percent_encoded(b1) =~= seq!['%', '2', '3']);
    assert(b2 =~= seq![35u8, 102u8]);
    assert(percent_encoded(b2) =~= seq!['%', '2', '3', 'f']);
    assert(b3 =~= seq![35u8, 102u8, 102u8]);
    assert(percent_encoded(b3) =~= seq!['%', '2', '3', 'f', 'f']);
    assert(b4 =~= seq![35u8, 102u8, 102u8, 51u8]);
    assert(percent_encoded(b4) =~= seq!['%', '2', '3', 'f', 'f', '3']);
    assert(b5 =~= seq![35u8, 102u8, 102u8, 51u8, 49u8]);
    assert(percent_encoded(b5) =~= seq!['%', '2', '3', 'f', 'f', '3', '1']);
    assert(b6 =~= seq![35u8, 102u8, 102u8, 51u8, 49u8, 53u8]);
    assert(percent_encoded(b6) =~= seq!['%', '2', '3', 'f', 'f', '3', '1', '5']);
    assert(percent_encoded(bytes) =~= "%23ff3155"@);
}

/// Every error frame carries the red accent, percent-encoded as `%23ff3155`.
pub proof fn lemma_error_is_red(message: Seq<char>)
    ensures
        occurs_in("%23ff3155"@, shell_uri(RED@, error_content(message))),
{
    let head = svg_uri_prefix() + percent_encoded(encode_utf8(SHELL_OPEN@));
    let accent = percent_encoded(encode_utf8(RED@));
    let tail = SHELL_ACCENT_END@ + error_content(message) + SHELL_CLOSE@;
    let rest = percent_encoded(encode_utf8(tail));
    assert(shell_svg(RED@, error_content(message)) =~= SHELL_OPEN@ + (RED@ + tail));
    crate::pixel::lemma_encode_utf8_concat(SHELL_OPEN@, RED@ + tail);
    crate::pixel::lemma_encode_utf8_concat(RED@, tail);
    crate::pixel::lemma_percent_encoded_concat(encode_utf8(SHELL_OPEN@), encode_utf8(RED@) + encode_utf8(tail));
    crate::pixel::lemma_percent_encoded_concat(encode_utf8(RED@), encode_utf8(tail));
    let uri = shell_uri(RED@, error_content(message));
    assert(uri =~= head + accent + rest);
    lemma_red_encoded();
    assert(uri.subrange(head.len() as int, (head.len() + accent.len()) as int) =~= accent);
}

/// Accent colour and level name of a US AQI value.
pub open spec fn aqi_style_spec(aqi: u16) -> (Seq<char>, Seq<char>) {
    if aqi <= 50 {
        (GREEN@, "GOOD"@)
    } else if aqi <= 100 {
        (YELLOW@, "MODERATE"@)
    } else if aqi <= 150 {
        ("#f97316"@, "SENSITIVE"@)
    } else if aqi <= 200 {
        (RED@, "UNHEALTHY"@)
    } else if aqi <= 300 {
        ("#a855f7"@, "VERY UNHEALTHY"@)
    } else {
        ("#7f1d1d"@, "HAZARDOUS"@)
    }
}

/// The US AQI bands: each reading is drawn in exactly one band, chosen by its value:
/// GOOD (green) up to 50, MODERATE (yellow) 51 to 100, SENSITIVE (orange) 101 to 150,
/// UNHEALTHY (red) 151 to 200, VERY UNHEALTHY (purple) 201 to 300, HAZARDOUS above.
pub proof fn lemma_aqi_bands(aqi: u16)
    ensures
        (aqi_style_spec(aqi) == (GREEN@, "GOOD"@)) <==> aqi <= 50,
        (aqi_style_spec(aqi) == (YELLOW@, "MODERATE"@)) <==> 51 <= aqi <= 100,
        (aqi_style_spec(aqi) == ("#f97316"@, "SENSITIVE"@)) <==> 101 <= aqi <= 150,
        (aqi_style_spec(aqi) == (RED@, "UNHEALTHY"@)) <==> 151 <= aqi <= 200,
        (aqi_style_spec(aqi) == ("#a855f7"@, "VERY UNHEALTHY"@)) <==> 201 <= aqi <= 300,
        (aqi_style_spec(aqi) == ("#7f1d1d"@, "HAZARDOUS"@)) <==> 300 < aqi,
{
    reveal_strlit("GOOD");
    reveal_strlit("MODERATE");
    reveal_strlit("SENSITIVE");
    reveal_strlit("UNHEALTHY");
    reveal_strlit("VERY UNHEALTHY");
    reveal_strlit("HAZARDOUS");
    assert("GOOD"@.len() == 4);
    assert("MODERATE"@.len() == 8);
    assert("SENSITIVE"@.len() == 9);
    assert("UNHEALTHY"@.len() == 9);
    assert("VERY UNHEALTHY"@.len() == 14);
    assert("HAZARDOUS"@.len() == 9);
    assert("SENSITIVE"@[0] != "UNHEALTHY"@[0]);
    assert("SENSITIVE"@[0] != "HAZARDOUS"@[0]);
    assert("UNHEALTHY"@[0] != "HAZARDOUS"@[0]);
}

/// Accent colour and level name of the reading's US AQI band.
pub fn aqi_style(data: &AirQualityData) -> (r: (&'static str, &'static str))
    ensures
        (r.0@, r.1@) == aqi_style_spec(data.aqi),
{
    if data.aqi <= 50 {
        (GREEN, "GOOD")
    } else if data.aqi <= 100 {
        (YELLOW, "MODERATE")
    } else if data.aqi <= 150 {
        ("#f97316", "SENSITIVE")
    } else if data.aqi <= 200 {
        (RED, "UNHEALTHY")
    } else if data.aqi <= 300 {
        ("#a855f7", "VERY UNHEALTHY")
    } else {
        ("#7f1d1d", "HAZARDOUS")
    }
}

/// The level line of an air-quality frame: the source's level, or the band's name.
pub open spec fn air_level(data: AirQualityData) -> Seq<char> {
    if trimmed(data.level@).len() == 0 {
        aqi_style_spec(data.aqi).1
    } else {
        clipped_spec(uppercase(data.level@), 20)
    }
}

pub open spec fn air_quality_content(data: AirQualityData) -> Seq<char> {
    let accent = aqi_style_spec(data.aqi).0;
    text_path_spec("US AQI"@, 7200, 35, 13, MUTED@) + text_path_spec(
        decimal(data.aqi as nat),
        7200,
        91,
        45,
        accent,
    ) + text_path_spec(air_level(data), 7200, 117, 11, accent) + text_path_spec(
        "PRESS TO REFRESH"@,
        7200,
        132,
        6,
        HINT@,
    )
}

/// The air-quality frame: the AQI value in its band's colour and the level.
pub fn air_quality(data: &AirQualityData) -> (uri: String)
    ensures
        uri@ == shell_uri(aqi_style_spec(data.aqi).0, air_quality_content(*data)),
{
    let (accent, fallback) = aqi_style(data);
    let trimmed_level = trim_chars(&chars_of(data.level.as_str()));
    let level = if trimmed_level.len() == 0 {
        string_of(&chars_of(fallback))
    } else {
        let upper = to_uppercase(data.level.as_str());
        clipped(upper.as_str(), 20)
    };
    let mut value = String::new();
    push_u64(&mut value, data.aqi as u64);
    let mut content = text_path("US AQI", 7200, 35, 13, MUTED);
    push_str(&mut content, text_path(value.as_str(), 7200, 91, 45, accent).as_str());
    push_str(&mut content, text_path(level.as_str(), 7200, 117, 11, accent).as_str());
    push_str(&mut content, text_path("PRESS TO REFRESH", 7200, 132, 6, HINT).as_str());
    shell(accent, content.as_str())
}

/// The condition named by a WMO weather code.
pub open spec fn weather_text(code: u8) -> Seq<char> {
    if code == 0 {
        "CLEAR"@
    } else if 1 <= code <= 3 {
        "CLOUDY"@
    } else if code == 45 || code == 48 {
        "FOG"@
    } else if (51 <= code <= 67) || (80 <= code <= 82) {
        "RAIN"@
    } else if (71 <= code <= 77) || code == 85 || code == 86 {
        "SNOW"@
    } else if 95 <= code <= 99 {
        "STORM"@
    } else {
        "WEATHER"@
    }
}

/// The condition named by a WMO weather code.
pub fn weather_description(code: u8) -> (r: &'static str)
    ensures
        r@ == weather_text(code),
{
    if code == 0 {
        "CLEAR"
    } else if 1 <= code && code <= 3 {
        "CLOUDY"
    } else if code == 45 || code == 48 {
        "FOG"
    } else if (51 <= code && code <= 67) || (80 <= code && code <= 82) {
        "RAIN"
    } else if (71 <= code && code <= 77) || code == 85 || code == 86 {
        "SNOW"
    } else if 95 <= code && code <= 99 {
        "STORM"
    } else {
        "WEATHER"
    }
}

pub const ICON_SUN_OPEN: &'static str = "<circle cx=\"43\" cy=\"57\" r=\"17\" fill=\"none\" stroke=\"";
pub const ICON_SUN_CLOSE: &'static str = "\" stroke-width=\"6\"/>";
pub const ICON_CLOUD: &'static str = "<path d=\"M37 78h55c13 0 13-19 1-20-4-17-29-18-35-3-14-4-25 5-21 23z\" fill=\"#172d3a\" stroke=\"#20e3ff\" stroke-width=\"5\"/>";
pub const ICON_RAIN: &'static str = "<path d=\"M49 88l-5 10M67 88l-5 10M85 88l-5 10\" stroke=\"#20e3ff\" stroke-width=\"4\"/>";

pub open spec fn shows_precipitation(code: u8) -> bool {
    (51 <= code <= 67) || (80 <= code <= 82) || (95 <= code <= 99)
}

pub open spec fn shows_cloud(code: u8) -> bool {
    (1 <= code <= 3) || code == 45 || code == 48 || (51 <= code <= 99)
}

/// The weather icon: a sun or moon ring, a cloud for cloudy codes, rain lines for wet ones.
pub open spec fn weather_icon_spec(data: WeatherData) -> Seq<char> {
    let sky = if data.is_day {
        YELLOW@
    } else {
        "#a78bfa"@
    };
    ICON_SUN_OPEN@ + sky + ICON_SUN_CLOSE@ + (if shows_cloud(data.code) {
        ICON_CLOUD@
    } else {
        Seq::empty()
    }) + (if shows_precipitation(data.code) {
        ICON_RAIN@
    } else {
        Seq::empty()
    })
}

/// The weather icon of a reading.
pub fn weather_icon(data: &WeatherData) -> (icon: String)
    ensures
        icon@ == weather_icon_spec(*data),
{
    let sky = if data.is_day { YELLOW } else { "#a78bfa" };
    let code = data.code;
    let precipitation = (51 <= code && code <= 67) || (80 <= code && code <= 82) || (95 <= code
        && code <= 99);
    let cloud = (1 <= code && code <= 3) || code == 45 || code == 48 || (51 <= code && code <= 99);
    let mut icon = String::new();
    push_str(&mut icon, ICON_SUN_OPEN);
    push_str(&mut icon, sky);
    push_str(&mut icon, ICON_SUN_CLOSE);
    let ghost base = icon@;
    if cloud {
        push_str(&mut icon, ICON_CLOUD);
    } else {
        assert(icon@ == base + Seq::<char>::empty());
    }
    let ghost with_cloud = icon@;
    if precipitation {
        push_str(&mut icon, ICON_RAIN);
    } else {
        assert(icon@ == with_cloud + Seq::<char>::empty());
    }
    icon
}

pub open spec fn weather_accent(code: u8) -> Seq<char> {
    if 95 <= code <= 99 {
        MAGENTA@
    } else {
        CYAN@
    }
}

pub open spec fn weather_content(data: WeatherData) -> Seq<char> {
    weather_icon_spec(data) + text_path_spec(
        int_text(data.temperature as int) + " C"@,
        10500,
        54,
        22,
        WHITE@,
    ) + text_path_spec("FEELS "@ + int_text(data.apparent as int) + " C"@, 10500, 73, 8, MUTED@)
        + text_path_spec(weather_text(data.code), 7200, 116, 13, weather_accent(data.code))
        + text_path_spec("RAIN "@ + decimal(data.precipitation as nat) + "%"@, 7200, 132, 7, HINT@)
}

/// The weather frame: icon, temperature, felt temperature, condition and rain chance.
pub fn weather(data: &WeatherData) -> (uri: String)
    ensures
        uri@ == shell_uri(weather_accent(data.code), weather_content(*data)),
{
    let description = weather_description(data.code);
    let accent = if 95 <= data.code && data.code <= 99 { MAGENTA } else { CYAN };
    let mut temperature = String::new();
    push_i128(&mut temperature, data.temperature as i128);
    push_str(&mut temperature, " C");
    let mut feels = String::new();
    push_str(&mut feels, "FEELS ");
    push_i128(&mut feels, data.apparent as i128);
    push_str(&mut feels, " C");
    let mut rain = String::new();
    push_str(&mut rain, "RAIN ");
    push_u64(&mut rain, data.precipitation as u64);
    push_str(&mut rain, "%");
    let mut content = weather_icon(data);
    push_str(&mut content, text_path(temperature.as_str(), 10500, 54, 22, WHITE).as_str());
    push_str(&mut content, text_path(feels.as_str(), 10500, 73, 8, MUTED).as_str());
    push_str(&mut content, text_path(description, 7200, 116, 13, accent).as_str());
    push_str(&mut content, text_path(rain.as_str(), 7200, 132, 7, HINT).as_str());
    shell(accent, content.as_str())
}

/// Accent colour and badge of the PowerShell action's state.
pub open spec fn powershell_style(status: Seq<char>) -> (Seq<char>, Seq<char>) {
    if status == "running"@ {
        (YELLOW@, "RUNNING"@)
    } else if status == "ok"@ {
        (GREEN@, "COMPLETE"@)
    } else if status == "error"@ {
        (RED@, "FAILED"@)
    } else {
        (CYAN@, "READY"@)
    }
}

/// The script line of the PowerShell frame: its label, else the script, else `SCRIPT`.
pub open spec fn powershell_script(settings: SettingsValue) -> Seq<char> {
    let label = setting_string_spec(settings, "label"@, ""@);
    if label.len() == 0 {
        setting_string_spec(settings, "script"@, "SCRIPT"@)
    } else {
        label
    }
}

pub open spec fn powershell_content(settings: SettingsValue, status: Seq<char>) -> Seq<char> {
    let (accent, badge) = powershell_style(status);
    text_path_spec("PS >"@, 7200, 39, 17, accent) + text_path_spec(
        clipped_spec(uppercase(powershell_script(settings)), 17),
        7200,
        78,
        15,
        WHITE@,
    ) + text_path_spec(badge, 7200, 108, 12, accent) + text_path_spec(
        "PRESS TO RUN"@,
        7200,
        129,
        7,
        HINT@,
    )
}

/// The PowerShell action's frame for a state (`running`, `ok`, `error`, else ready).
pub fn powershell(settings: &SettingsValue, status: &str) -> (uri: String)
    ensures
        uri@ == shell_uri(powershell_style(status@).0, powershell_content(*settings, status@)),
{
    let label = setting_string(settings, "label", "");
    let script = if label.as_str().is_empty() {
        setting_string(settings, "script", "SCRIPT")
    } else {
        label
    };
    let st = chars_of(status);
    let (accent, badge) = if eq_chars_str(&st, "running") {
        (YELLOW, "RUNNING")
    } else if eq_chars_str(&st, "ok") {
        (GREEN, "COMPLETE")
    } else if eq_chars_str(&st, "error") {
        (RED, "FAILED")
    } else {
        (CYAN, "READY")
    };
    let upper = to_uppercase(script.as_str());
    let line = clipped(upper.as_str(), 17);
    let mut content = text_path("PS >", 7200, 39, 17, accent);
    push_str(&mut content, text_path(line.as_str(), 7200, 78, 15, WHITE).as_str());
    push_str(&mut content, text_path(badge, 7200, 108, 12, accent).as_str());
    push_str(&mut content, text_path("PRESS TO RUN", 7200, 129, 7, HINT).as_str());
    shell(accent, content.as_str())
}

// ---------------------------------------------------------------------------
// Money values
// ---------------------------------------------------------------------------

/// `d` with a comma before every third character counted from the right.
pub open spec fn grouped_digits(d: Seq<char>) -> Seq<char>
    decreases d.len(),
{
    if d.len() <= 3 {
        d
    } else {
        grouped_digits(d.take(d.len() - 3)) + ","@ + d.skip(d.len() - 3)
    }
}

/// Where the first `.` of `s` stands.
pub open spec fn first_dot(s: Seq<char>) -> Option<int> {
    if s.contains('.') {
        Some(choose|i: int| 0 <= i < s.len() && s[i] == '.' && forall|j: int| 0 <= j < i ==> s[j] != '.')
    } else {
        None
    }
}

/// A number written with its decimals after a `.` (as `{:.2}` writes it), with the digits
/// of its integer part grouped in threes by commas; `.00` when it has no decimals.
pub open spec fn money_text(formatted: Seq<char>) -> Seq<char> {
    let (integer, decimals) = match first_dot(formatted) {
        Some(i) => (formatted.take(i), formatted.skip(i + 1)),
        None => (formatted, "00"@),
    };
    let (sign, digits) = if integer.len() > 0 && integer[0] == '-' {
        ("-"@, integer.drop_first())
    } else {
        (seq![], integer)
    };
    sign + grouped_digits(digits) + "."@ + decimals
}

fn grouped_prefix(d: &Vec<char>, end: usize) -> (r: Vec<char>)
    requires
        end <= d@.len(),
    ensures
        r@ == grouped_digits(d@.take(end as int)),
    decreases end,
{
    if end <= 3 {
        let mut out: Vec<char> = Vec::new();
        let mut i: usize = 0;
        while i < end
            invariant
                i <= end <= d@.len(),
                out@ == d@.take(i as int),
            decreases end - i,
        {
            out.push(d[i]);
            i = i + 1;
            assert(out@ == d@.take(i as int));
        }
        out
    } else {
        let mut out = grouped_prefix(d, end - 3);
        out.push(',');
        out.push(d[end - 3]);
        out.push(d[end - 2]);
        out.push(d[end - 1]);
        proof {
            reveal_strlit(",");
            let t = d@.take(end as int);
            assert(t.take(t.len() - 3) == d@.take(end - 3));
            assert(t.skip(t.len() - 3) =~= seq![d@[end - 3], d@[end - 2], d@[end - 1]]);
            assert(out@ =~= grouped_digits(d@.take(end - 3)) + ","@ + t.skip(t.len() - 3));
        }
        out
    }
}

/// Groups the integer digits of a formatted number (see `money_text`).
pub fn money(formatted: &str) -> (r: String)
    ensures
        r@ == money_text(formatted@),
{
    proof {
        reveal_strlit("00");
        reveal_strlit("-");
        reveal_strlit(".");
        reveal_strlit(",");
    }
    let f = chars_of(formatted);
    let mut dot: usize = 0;
    let mut found = false;
    while dot < f.len() && !found
        invariant
            dot <= f@.len(),
            forall|j: int| 0 <= j < dot ==> f@[j] != '.',
            found ==> dot < f@.len() && f@[dot as int] == '.',
        decreases f@.len() - dot, if found { 0int } else { 1int },
    {
        if f[dot] == '.' {
            found = true;
        } else {
            dot = dot + 1;
        }
    }
    let mut integer: Vec<char> = Vec::new();
    let mut decimals: Vec<char> = Vec::new();
    let end = if found { dot } else { f.len() };
    let mut i: usize = 0;
    while i < end
        invariant
            i <= end <= f@.len(),
            integer@ == f@.take(i as int),
        decreases end - i,
    {
        integer.push(f[i]);
        i = i + 1;
        assert(integer@ == f@.take(i as int));
    }
    if found {
        let mut k: usize = dot + 1;
        while k < f.len()
            invariant
                dot < k <= f@.len(),
                decimals@ == f@.subrange(dot + 1, k as int),
            decreases f@.len() - k,
        {
            decimals.push(f[k]);
            k = k + 1;
            assert(decimals@ == f@.subrange(dot + 1, k as int));
        }
        proof {
            assert(f@.contains('.'));
            let q = choose|q: int| 0 <= q < f@.len() && f@[q] == '.' && forall|j: int| 0 <= j < q ==> f@[j] != '.';
            assert(q == dot) by {
                if q > dot {
                    assert(f@[dot as int] == '.');
                }
            }
            assert(decimals@ == f@.skip(dot + 1));
        }
    } else {
        decimals.push('0');
        decimals.push('0');
        proof {
            assert(!f@.contains('.')) by {
                if f@.contains('.') {
                    let x = choose|x: int| 0 <= x < f@.len() && f@[x] == '.';
                }
            }
            assert(f@.take(f@.len() as int) == f@);
            assert(decimals@ =~= "00"@);
        }
    }
    let negative = integer.len() > 0 && integer[0] == '-';
    let mut digits: Vec<char> = Vec::new();
    let start: usize = if negative { 1 } else { 0 };
    let mut m: usize = start;
    while m < integer.len()
        invariant
            start <= m <= integer@.len(),
            digits@ == integer@.subrange(start as int, m as int),
        decreases integer@.len() - m,
    {
        digits.push(integer[m]);
        m = m + 1;
        assert(digits@ == integer@.subrange(start as int, m as int));
    }
    proof {
        if negative {
            assert(digits@ == integer@.drop_first());
        } else {
            assert(digits@ == integer@);
        }
    }
    let grouped = grouped_prefix(&digits, digits.len());
    assert(digits@.take(digits@.len() as int) == digits@);
    let mut out = String::new();
    if negative {
        push_char(&mut out, '-');
    }
    push_chars(&mut out, &grouped);
    push_char(&mut out, '.');
    push_chars(&mut out, &decimals);
    proof {
        if negative {
            assert(out@ =~= "-"@ + grouped@ + "."@ + decimals@);
        } else {
            assert(out@ =~= seq![] + grouped@ + "."@ + decimals@);
        }
    }
    out
}

// ---------------------------------------------------------------------------
// Quote frames
// ---------------------------------------------------------------------------

/// The currency a gold widget prices in: its `currency` setting (USD when unset),
/// upper-cased.
pub open spec fn gold_currency_spec(settings: SettingsValue) -> Seq<char> {
    uppercase(setting_string_spec(settings, "currency"@, "USD"@))
}

/// The currency a gold widget prices in (see `gold_currency_spec`); the price is
/// converted from US dollars when it is THB.
pub fn gold_currency(settings: &SettingsValue) -> (r: String)
    ensures
        r@ == gold_currency_spec(*settings),
{
    to_uppercase(setting_string(settings, "currency", "USD").as_str())
}

/// The size of a gold price: smaller when it takes more than nine bytes.
pub open spec fn gold_price_size(value: Seq<char>) -> u16 {
    if encode_utf8(value).len() > 9 {
        22
    } else {
        29
    }
}

pub open spec fn gold_content(currency: Seq<char>, value: Seq<char>) -> Seq<char> {
    text_path_spec("GOLD "@ + currency, 7200, 36, 13, YELLOW@) + text_path_spec(
        value,
        7200,
        83,
        gold_price_size(value),
        WHITE@,
    ) + text_path_spec("SPOT / TROY OZ"@, 7200, 107, 9, MUTED@) + text_path_spec(
        "PRESS: XAUUSD"@,
        7200,
        126,
        7,
        HINT@,
    )
}

/// The gold frame: the currency and the spot price per troy ounce, already written out.
pub fn gold(currency: &str, value: &str) -> (uri: String)
    ensures
        uri@ == shell_uri(YELLOW@, gold_content(currency@, value@)),
{
    let mut title = owned_str("GOLD ");
    push_str(&mut title, currency);
    let size: u16 = if value.as_bytes().len() > 9 { 22 } else { 29 };
    let mut content = text_path(title.as_str(), 7200, 36, 13, YELLOW);
    push_str(&mut content, text_path(value, 7200, 83, size, WHITE).as_str());
    push_str(&mut content, text_path("SPOT / TROY OZ", 7200, 107, 9, MUTED).as_str());
    push_str(&mut content, text_path("PRESS: XAUUSD", 7200, 126, 7, HINT).as_str());
    shell(YELLOW, content.as_str())
}

/// Green for a rise (or no change), red for a fall.
pub open spec fn trend_accent(rising: bool) -> Seq<char> {
    if rising {
        GREEN@
    } else {
        RED@
    }
}

pub open spec fn currency_content(pair: Seq<char>, value: Seq<char>, change: Seq<char>, rising: bool) -> Seq<char> {
    text_path_spec(pair, 7200, 37, 15, CYAN@) + text_path_spec(value, 7200, 82, 29, WHITE@) + text_path_spec(
        change,
        7200,
        111,
        15,
        trend_accent(rising),
    ) + text_path_spec("PRESS TO REFRESH"@, 7200, 129, 7, HINT@)
}

/// The currency frame: the pair, the rate and its change, already written out, the change
/// green when the rate did not fall.
pub fn currency(pair: &str, value: &str, change: &str, rising: bool) -> (uri: String)
    ensures
        uri@ == shell_uri(CYAN@, currency_content(pair@, value@, change@, rising)),
{
    let accent = if rising { GREEN } else { RED };
    let mut content = text_path(pair, 7200, 37, 15, CYAN);
    push_str(&mut content, text_path(value, 7200, 82, 29, WHITE).as_str());
    push_str(&mut content, text_path(change, 7200, 111, 15, accent).as_str());
    push_str(&mut content, text_path("PRESS TO REFRESH", 7200, 129, 7, HINT).as_str());
    shell(CYAN, content.as_str())
}

/// A stock quote, its numbers already written out.
pub struct StockQuote {
    pub symbol: String,
    pub display_name: String,
    pub price: String,
    /// The day's opening price, when known.
    pub open: Option<String>,
    /// The profit or loss of the position, or else the change.
    pub secondary: String,
    /// The quote did not fall.
    pub rising: bool,
}

/// The title of a stock frame: the display name, upper-cased and cut to 16 characters,
/// or the symbol when there is no display name.
pub open spec fn stock_title(q: StockQuote) -> Seq<char> {
    if q.display_name@.len() == 0 {
        q.symbol@
    } else {
        clipped_spec(uppercase(q.display_name@), 16)
    }
}

/// The opening line of a stock frame.
pub open spec fn stock_open_line(q: StockQuote) -> Seq<char> {
    match q.open {
        Some(v) => "OPEN "@ + v@,
        None => "OPEN --"@,
    }
}

pub open spec fn stock_content(q: StockQuote) -> Seq<char> {
    let accent = trend_accent(q.rising);
    text_path_spec(stock_title(q), 7200, 32, 13, accent) + text_path_spec(q.price@, 7200, 73, 28, WHITE@)
        + text_path_spec(stock_open_line(q), 7200, 96, 9, MUTED@) + text_path_spec(
        q.secondary@,
        7200,
        118,
        13,
        accent,
    ) + text_path_spec("YAHOO FINANCE"@, 7200, 132, 6, HINT@)
}

/// The stock frame: title, price, opening price and profit or change.
pub fn stock(q: &StockQuote) -> (uri: String)
    ensures
        uri@ == shell_uri(trend_accent(q.rising), stock_content(*q)),
{
    let accent = if q.rising { GREEN } else { RED };
    let title = if q.display_name.as_str().unicode_len() == 0 {
        owned_str(q.symbol.as_str())
    } else {
        clipped(to_uppercase(q.display_name.as_str()).as_str(), 16)
    };
    let open = match &q.open {
        Some(v) => {
            let mut line = owned_str("OPEN ");
            push_str(&mut line, v.as_str());
            line
        },
        None => owned_str("OPEN --"),
    };
    let mut content = text_path(title.as_str(), 7200, 32, 13, accent);
    push_str(&mut content, text_path(q.price.as_str(), 7200, 73, 28, WHITE).as_str());
    push_str(&mut content, text_path(open.as_str(), 7200, 96, 9, MUTED).as_str());
    push_str(&mut content, text_path(q.secondary.as_str(), 7200, 118, 13, accent).as_str());
    push_str(&mut content, text_path("YAHOO FINANCE", 7200, 132, 6, HINT).as_str());
    shell(accent, content.as_str())
}

fn owned_str(t: &str) -> (s: String)
    ensures
        s@ == t@,
{
    crate::text::owned(t)
}

// ---------------------------------------------------------------------------
// Work hours
// ---------------------------------------------------------------------------

/// The local time a work-hours frame shows.
pub struct WorkClock {
    /// Days since Monday (0 to 6).
    pub weekday: u8,
    pub hour: u8,
    pub minute: u8,
}

/// The working hours of a work-hours widget: its `startH` and `endH` settings (9 and 18
/// when unset), each clamped to 0..=23.
pub open spec fn work_window_spec(settings: SettingsValue) -> (int, int) {
    let hour = |key: Seq<char>, fallback: int| clamp(
        match setting_i64_opt(settings, key) {
            Some(v) => v as int,
            None => fallback,
        },
        0,
        23,
    );
    (hour("startH"@, 9), hour("endH"@, 18))
}

fn clamp_hour(v: i64) -> (r: u32)
    ensures
        r as int == clamp(v as int, 0, 23),
{
    if v < 0 {
        0
    } else if v > 23 {
        23
    } else {
        v as u32
    }
}

/// The first and the last hour of the working day (see `work_window_spec`).
pub fn work_window(settings: &SettingsValue) -> (r: (u32, u32))
    ensures
        (r.0 as int, r.1 as int) == work_window_spec(*settings),
{
    (clamp_hour(setting_i64(settings, "startH", 9)), clamp_hour(setting_i64(settings, "endH", 18)))
}

/// Whether `clock` falls in the working hours `(start, end)` of a weekday.
pub open spec fn is_working(window: (int, int), clock: WorkClock) -> bool {
    let minutes = clock.hour * 60 + clock.minute;
    clock.weekday < 5 && window.0 < window.1 && minutes >= window.0 * 60 && minutes < window.1 * 60
}

/// The short English name of a weekday, upper-cased.
pub open spec fn day_name(weekday: u8) -> Seq<char> {
    if weekday == 0 {
        "MON"@
    } else if weekday == 1 {
        "TUE"@
    } else if weekday == 2 {
        "WED"@
    } else if weekday == 3 {
        "THU"@
    } else if weekday == 4 {
        "FRI"@
    } else if weekday == 5 {
        "SAT"@
    } else {
        "SUN"@
    }
}

/// `n` written with at least two digits.
pub open spec fn two_digits(n: nat) -> Seq<char> {
    if n < 10 {
        "0"@ + decimal(n)
    } else {
        decimal(n)
    }
}

/// The colour of a work-hours frame.
pub open spec fn work_accent(working: bool) -> Seq<char> {
    if working {
        "#ff9b57"@
    } else {
        MUTED@
    }
}

pub const WORK_TRACK: &'static str = "\n<rect x=\"16\" y=\"109\" width=\"112\" height=\"8\" fill=\"#252c37\"/>\n<rect x=\"16\" y=\"109\" width=\"";
pub const WORK_BAR_FILL: &'static str = "\" height=\"8\" fill=\"";
pub const WORK_BAR_END: &'static str = "\"/>\n";

pub open spec fn work_hours_content(settings: SettingsValue, clock: WorkClock, width: Seq<char>) -> Seq<char> {
    let window = work_window_spec(settings);
    let working = is_working(window, clock);
    let accent = work_accent(working);
    text_path_spec(if working { "WORK"@ } else { "REST"@ }, 7200, 33, 12, accent) + text_path_spec(
        two_digits(clock.hour as nat) + ":"@ + two_digits(clock.minute as nat),
        7200,
        80,
        34,
        WHITE@,
    ) + text_path_spec(day_name(clock.weekday), 7200, 100, 10, MUTED@) + text_path_spec(
        two_digits(window.0 as nat) + ":00"@,
        2900,
        130,
        7,
        HINT@,
    ) + WORK_TRACK@ + width + WORK_BAR_FILL@ + accent + WORK_BAR_END@ + text_path_spec(
        two_digits(window.1 as nat) + ":00"@,
        11500,
        130,
        7,
        HINT@,
    )
}

fn push_two_digits(s: &mut String, n: u32)
    ensures
        final(s)@ == old(s)@ + two_digits(n as nat),
{
    proof {
        reveal_strlit("0");
    }
    if n < 10 {
        push_char(s, '0');
    }
    push_u64(s, n as u64);
    proof {
        if n < 10 {
            assert(final(s)@ =~= old(s)@ + ("0"@ + decimal(n as nat)));
        }
    }
}

/// The work-hours frame at `clock`: WORK or REST, the time and day, and how far the
/// working day has come, the bar `width` pixels wide (written out, one decimal).
pub fn work_hours(settings: &SettingsValue, clock: &WorkClock, width: &str) -> (uri: String)
    requires
        clock.weekday < 7,
        clock.hour < 24,
        clock.minute < 60,
    ensures
        uri@ == shell_uri(
            work_accent(is_working(work_window_spec(*settings), *clock)),
            work_hours_content(*settings, *clock, width@),
        ),
{
    let (start, end) = work_window(settings);
    let minutes: u32 = clock.hour as u32 * 60 + clock.minute as u32;
    let working = clock.weekday < 5 && start < end && minutes >= start * 60 && minutes < end * 60;
    let accent = if working { "#ff9b57" } else { MUTED };
    let mut time = String::new();
    push_two_digits(&mut time, clock.hour as u32);
    push_str(&mut time, ":");
    push_two_digits(&mut time, clock.minute as u32);
    let day = match clock.weekday {
        0 => "MON",
        1 => "TUE",
        2 => "WED",
        3 => "THU",
        4 => "FRI",
        5 => "SAT",
        _ => "SUN",
    };
    let mut first = String::new();
    push_two_digits(&mut first, start);
    push_str(&mut first, ":00");
    let mut last = String::new();
    push_two_digits(&mut last, end);
    push_str(&mut last, ":00");
    let mut content = text_path(if working { "WORK" } else { "REST" }, 7200, 33, 12, accent);
    push_str(&mut content, text_path(time.as_str(), 7200, 80, 34, WHITE).as_str());
    push_str(&mut content, text_path(day, 7200, 100, 10, MUTED).as_str());
    push_str(&mut content, text_path(first.as_str(), 2900, 130, 7, HINT).as_str());
    push_str(&mut content, WORK_TRACK);
    push_str(&mut content, width);
    push_str(&mut content, WORK_BAR_FILL);
    push_str(&mut content, accent);
    push_str(&mut content, WORK_BAR_END);
    push_str(&mut content, text_path(last.as_str(), 11500, 130, 7, HINT).as_str());
    shell(accent, content.as_str())
}

} // verus!

//! The system-volume dial: its touch-strip image, the device-name cleanup, the volume
//! step, and double-press detection. This crate holds no reader of the Windows audio
//! endpoint, so every audio action reports the endpoint unsupported.

use vstd::prelude::*;
use crate::keyed::{has_key, keyed_map, lemma_keyed_get, lemma_keyed_push, lemma_keyed_remove, unique_keys};
use crate::live::{LiveAction, LiveWorker};
use crate::pixel::{
    data_uri, percent_encoded, scale, span, svg_uri_prefix, text_path, text_path_spec, text_width,
};
use crate::settings::{setting, setting_value, SettingsNumber, SettingsValue};
use crate::text::{
    ascii_lower, chars_of, decimal, eq_chars_str, fixed2, owned, push_fixed2, push_str, push_u64,
    string_of, string_views, strip_chars, stripped, to_ascii_lower, to_uppercase, trim_chars,
    trimmed, uppercase,
};
use vstd::utf8::encode_utf8;

verus! {

broadcast use vstd::string::group_string_axioms;

pub const ACTION: &'static str = "com.amansprojects.starterpack.systemvolume";
/// Two presses of the dial within this many milliseconds make a double press.
pub const DOUBLE_PRESS_MS: u64 = 1000;
/// Period of the peak-meter animation, in milliseconds: one frame per second keeps the
/// indicator useful without saturating the HID display.
pub const ANIMATION_INTERVAL_MS: u64 = 1000;
/// What every audio action reports where the Windows audio API is not available.
pub const UNSUPPORTED: &'static str = "system audio actions are currently available on Windows";

/// The state of the default output device.
pub struct AudioSnapshot {
    pub device_name: String,
    pub volume: u8,
    pub muted: bool,
    pub peak: u8,
}

/// The speaker's sound-wave level for the output peak: none while muted or quiet.
pub open spec fn peak_level_spec(muted: bool, peak: u8) -> u8 {
    if muted || peak < 2 {
        0
    } else if peak < 20 {
        1
    } else if peak < 55 {
        2
    } else {
        3
    }
}

/// The sound-wave level the speaker shows for a snapshot.
pub fn peak_level(snapshot: &AudioSnapshot) -> (level: u8)
    ensures
        level == peak_level_spec(snapshot.muted, snapshot.peak),
        level <= 3,
{
    if snapshot.muted || snapshot.peak < 2 {
        0
    } else if snapshot.peak < 20 {
        1
    } else if snapshot.peak < 55 {
        2
    } else {
        3
    }
}

impl AudioSnapshot {
    /// Whether two snapshots draw the same frame: same device, volume, mute state and
    /// sound-wave level.
    pub fn same_frame(&self, other: &Self) -> (r: bool)
        ensures
            r == (self.device_name@ == other.device_name@ && self.volume == other.volume
                && self.muted == other.muted && peak_level_spec(self.muted, self.peak)
                == peak_level_spec(other.muted, other.peak)),
    {
        self.device_name == other.device_name && self.volume == other.volume && self.muted
            == other.muted && peak_level(self) == peak_level(other)
    }
}

/// The integer setting `key` capped at 255, when it is a number `as_u64` accepts.
pub open spec fn setting_u8_spec(settings: SettingsValue, key: Seq<char>, fallback: u8) -> u8 {
    match setting(settings, key) {
        Some(SettingsValue::Number(SettingsNumber::PosInt(v))) => if v > 255 {
            255
        } else {
            v as u8
        },
        _ => fallback,
    }
}

/// A small integer setting, capped at 255, or `fallback`.
pub fn setting_u8(settings: &SettingsValue, key: &str, fallback: u8) -> (r: u8)
    ensures
        r == setting_u8_spec(*settings, key@, fallback),
{
    match setting_value(settings, key) {
        Some(SettingsValue::Number(SettingsNumber::PosInt(v))) => {
            if *v > 255 {
                255
            } else {
                *v as u8
            }
        },
        _ => fallback,
    }
}

/// The volume change of a dial rotation: the ticks times the `step` setting (default 2),
/// kept within 1..=20 percentage points per tick.
pub open spec fn volume_delta_spec(settings: SettingsValue, ticks: i16) -> int {
    let step = setting_u8_spec(settings, "step"@, 2);
    let step = if step < 1 {
        1
    } else if step > 20 {
        20
    } else {
        step
    };
    ticks * step
}

/// Turning the dial changes the volume in the direction of the turn, by the same step
/// per tick: the step is between 1 and 20 points (the `step` setting when it lies there),
/// a turn by `ticks` moves `ticks` steps, and turning the other way undoes it.
pub proof fn lemma_volume_follows_the_turn(settings: SettingsValue, ticks: i16)
    ensures
        1 <= volume_delta_spec(settings, 1) <= 20,
        1 <= setting_u8_spec(settings, "step"@, 2) <= 20 ==> volume_delta_spec(settings, 1)
            == setting_u8_spec(settings, "step"@, 2),
        volume_delta_spec(settings, ticks) == ticks * volume_delta_spec(settings, 1),
        ticks > 0 ==> volume_delta_spec(settings, ticks) > 0,
        ticks < 0 ==> volume_delta_spec(settings, ticks) < 0,
        ticks == 0 ==> volume_delta_spec(settings, ticks) == 0,
{
    let step = volume_delta_spec(settings, 1);
    assert(volume_delta_spec(settings, ticks) == ticks * step);
    if ticks > 0 {
        assert(ticks * step > 0) by (nonlinear_arith)
            requires ticks > 0, step >= 1;
    } else if ticks < 0 {
        assert(ticks * step < 0) by (nonlinear_arith)
            requires ticks < 0, step >= 1;
    }
}

/// The volume change, in percentage points, of a dial rotation by `ticks`.
pub fn volume_delta(settings: &SettingsValue, ticks: i16) -> (delta: i32)
    ensures
        delta as int == volume_delta_spec(*settings, ticks),
{
    let step = setting_u8(settings, "step", 2);
    let step = if step < 1 { 1 } else if step > 20 { 20 } else { step };
    proof {
        assert(-32768 * 20 <= ticks * step <= 32767 * 20) by (nonlinear_arith)
            requires -32768 <= ticks <= 32767, 1 <= step <= 20;
    }
    (ticks as i32) * (step as i32)
}

// ---------------------------------------------------------------------------
// Device names
// ---------------------------------------------------------------------------

/// Characters that separate an output type from the device name.
pub open spec fn name_separators() -> Seq<char> {
    "()[]-:"@
}

/// Whether `s` starts with `prefix`, ignoring ASCII case.
pub open spec fn starts_ignoring_case(s: Seq<char>, prefix: Seq<char>) -> bool {
    s.len() >= prefix.len() && forall|i: int|
        0 <= i < prefix.len() ==> ascii_lower(#[trigger] s[i]) == ascii_lower(prefix[i])
}

/// The device name after an output-type word, when `v` starts with `prefix` followed by
/// a separator and something other than separators remains.
pub open spec fn name_after(v: Seq<char>, prefix: Seq<char>) -> Option<Seq<char>> {
    if starts_ignoring_case(v, prefix) && v.len() > prefix.len() && (crate::text::is_space(
        v[prefix.len() as int],
    ) || name_separators().contains(v[prefix.len() as int])) && stripped(
        v.skip(prefix.len() as int),
        name_separators(),
    ).len() > 0 {
        Some(stripped(v.skip(prefix.len() as int), name_separators()))
    } else {
        None
    }
}

/// The output-type words that are removed from a device name, in the order tried.
pub open spec fn output_types() -> Seq<Seq<char>> {
    seq!["Speakers"@, "Speaker"@, "Headphones"@, "Headphone"@]
}

pub open spec fn driver_name_from(v: Seq<char>, prefixes: Seq<Seq<char>>) -> Seq<char>
    decreases prefixes.len(),
{
    if prefixes.len() == 0 {
        v
    } else {
        match name_after(v, prefixes[0]) {
            Some(name) => name,
            None => driver_name_from(v, prefixes.drop_first()),
        }
    }
}

/// A device name without its leading output type ("Speakers (Realtek Audio)" names
/// "Realtek Audio"); other names only lose surrounding whitespace.
pub open spec fn driver_name_spec(value: Seq<char>) -> Seq<char> {
    driver_name_from(trimmed(value), output_types())
}

fn name_after_exec(v: &Vec<char>, prefix: &str) -> (r: Option<Vec<char>>)
    ensures
        match r {
            Some(name) => name_after(v@, prefix@) == Some(name@),
            None => name_after(v@, prefix@) is None,
        },
{
    let p = chars_of(prefix);
    if v.len() < p.len() {
        return None;
    }
    let mut i: usize = 0;
    while i < p.len()
        invariant
            i <= p.len() <= v.len(),
            p@ == prefix@,
            forall|j: int| 0 <= j < i ==> ascii_lower(#[trigger] v@[j]) == ascii_lower(p@[j]),
        decreases p.len() - i,
    {
        if to_ascii_lower(v[i]) != to_ascii_lower(p[i]) {
            return None;
        }
        i = i + 1;
    }
    if v.len() == p.len() {
        return None;
    }
    let seps = chars_of("()[]-:");
    let c = v[p.len()];
    let mut first_is_sep = crate::text::is_whitespace(c);
    let mut k: usize = 0;
    while k < seps.len()
        invariant
            k <= seps@.len(),
            seps@ == name_separators(),
            first_is_sep == (crate::text::is_space(c) || exists|j: int| 0 <= j < k && seps@[j] == c),
        decreases seps@.len() - k,
    {
        if seps[k] == c {
            first_is_sep = true;
        }
        k = k + 1;
    }
    if !first_is_sep {
        return None;
    }
    let mut rest: Vec<char> = Vec::new();
    let mut j: usize = p.len();
    while j < v.len()
        invariant
            p.len() <= j <= v.len(),
            rest@ == v@.subrange(p@.len() as int, j as int),
        decreases v.len() - j,
    {
        rest.push(v[j]);
        assert(v@.subrange(p@.len() as int, j + 1) == v@.subrange(p@.len() as int, j as int).push(v@[j as int]));
        j = j + 1;
    }
    assert(rest@ == v@.skip(p@.len() as int));
    let name = strip_chars(&rest, &seps);
    if name.len() == 0 {
        None
    } else {
        Some(name)
    }
}

/// The device name without a leading "Speakers", "Speaker", "Headphones" or
/// "Headphone" output type and its separators.
pub fn driver_name(value: &str) -> (name: String)
    ensures
        name@ == driver_name_spec(value@),
{
    let v = trim_chars(&chars_of(value));
    proof {
        reveal_with_fuel(driver_name_from, 5);
        let t = output_types();
        assert(t[0] == "Speakers"@ && t[1] == "Speaker"@ && t[2] == "Headphones"@ && t[3] == "Headphone"@);
        assert(t.drop_first().drop_first().drop_first().drop_first().len() == 0);
        assert(t.drop_first()[0] == t[1]);
        assert(t.drop_first().drop_first()[0] == t[2]);
        assert(t.drop_first().drop_first().drop_first()[0] == t[3]);
    }
    match name_after_exec(&v, "Speakers") {
        Some(n) => { return string_of(&n); },
        None => {},
    }
    match name_after_exec(&v, "Speaker") {
        Some(n) => { return string_of(&n); },
        None => {},
    }
    match name_after_exec(&v, "Headphones") {
        Some(n) => { return string_of(&n); },
        None => {},
    }
    match name_after_exec(&v, "Headphone") {
        Some(n) => { return string_of(&n); },
        None => {},
    }
    string_of(&v)
}

/// `value` cut to `max` characters, the last kept one replaced by an ellipsis when
/// characters were cut.
pub open spec fn truncate_label_spec(value: Seq<char>, max: nat) -> Seq<char> {
    if value.len() > max {
        let kept = value.take(max as int);
        (if max > 0 {
            kept.drop_last()
        } else {
            kept
        }).push('\u{2026}')
    } else {
        value
    }
}

/// `value` cut to `max_chars` characters, ending in an ellipsis when cut.
pub fn truncate_label(value: &str, max_chars: usize) -> (r: String)
    ensures
        r@ == truncate_label_spec(value@, max_chars as nat),
{
    let v = chars_of(value);
    if v.len() <= max_chars {
        return string_of(&v);
    }
    let mut out: Vec<char> = Vec::new();
    let mut i: usize = 0;
    while i < max_chars
        invariant
            i <= max_chars < v.len(),
            out@ == v@.take(i as int),
        decreases max_chars - i,
    {
        out.push(v[i]);
        assert(v@.take(i + 1) == v@.take(i as int).push(v@[i as int]));
        i = i + 1;
    }
    if max_chars > 0 {
        out.pop();
    }
    out.push('\u{2026}');
    string_of(&out)
}

// ---------------------------------------------------------------------------
// The touch-strip image
// ---------------------------------------------------------------------------

/// Horizontal offset of the speaker icon and centre of the status text, in hundredths
/// of a pixel, that centre the icon (41 px), a 10 px gap and the status as one group on
/// the 176 px strip.
pub open spec fn status_layout(width: int) -> (int, int) {
    let row_left = 8800 - (41 + 10 + width) * 50;
    (row_left - 1000, row_left + 5100 + width * 50)
}

/// Speaker offset and status centre, in hundredths of a pixel, for a status text.
pub fn centered_status_layout(status: &str) -> (r: (i128, i128))
    ensures
        (r.0 as int, r.1 as int) == status_layout(span(status@.len(), scale(29)) as int),
        r.0 > i128::MIN,
{
    let w = text_width(status, 29);
    let width = w as i128;
    let row_left = 8800 - (41 + 10 + width) * 50;
    (row_left - 1000, row_left + 5100 + width * 50)
}

/// The chevron drawn for a device switch (`PREV` or `NEXT`), else nothing.
pub open spec fn switch_indicator_spec(event: Seq<char>) -> Seq<char> {
    if event == "PREV"@ {
        PREV_CHEVRON@
    } else if event == "NEXT"@ {
        NEXT_CHEVRON@
    } else {
        ""@
    }
}

pub const PREV_CHEVRON: &'static str = "<path d=\"M14 95l-5 4 5 4\" fill=\"none\" stroke=\"#facc15\" stroke-width=\"2\"/>";
pub const NEXT_CHEVRON: &'static str = "<path d=\"M162 95l5 4-5 4\" fill=\"none\" stroke=\"#facc15\" stroke-width=\"2\"/>";

/// The chevron that marks a switch to the previous or next output device.
pub fn device_switch_indicator(event: &str) -> (r: &'static str)
    ensures
        r@ == switch_indicator_spec(event@),
{
    let e = chars_of(event);
    if eq_chars_str(&e, "PREV") {
        PREV_CHEVRON
    } else if eq_chars_str(&e, "NEXT") {
        NEXT_CHEVRON
    } else {
        ""
    }
}

pub const MUTED_WAVES: &'static str = "<path d=\"M34 42h5v5h5v5h-5v5h-5v-5h-5v-5h5z\" fill=\"#ff3155\"/>";
pub const WAVES_1: &'static str = "<path d=\"M32 44h5v5h4v6h-4v5h-5v-5h4v-6h-4z\" fill=\"#20e3ff\"/>";
pub const WAVES_2: &'static str = "<path d=\"M32 42h5v5h4v10h-4v5h-5v-5h4V47h-4zM42 39h5v5h4v16h-4v5h-5v-5h4V44h-4z\" fill=\"#20e3ff\"/>";
pub const WAVES_3: &'static str = "<path d=\"M32 42h5v5h4v10h-4v5h-5v-5h4V47h-4zM42 37h5v5h4v20h-4v5h-5v-5h4V42h-4zM52 32h5v5h4v30h-4v5h-5v-5h4V37h-4z\" fill=\"#20e3ff\"/>";

/// The speaker's sound waves: a cross while muted, else one to three arcs by level.
pub open spec fn speaker_waves(muted: bool, level: u8) -> Seq<char> {
    if muted {
        MUTED_WAVES@
    } else if level == 0 {
        ""@
    } else if level == 1 {
        WAVES_1@
    } else if level == 2 {
        WAVES_2@
    } else {
        WAVES_3@
    }
}

pub const STRIP_OPEN: &'static str = "<svg xmlns=\"http://www.w3.org/2000/svg\" width=\"176\" height=\"112\" viewBox=\"0 0 176 112\" shape-rendering=\"crispEdges\">\n<rect width=\"176\" height=\"112\" fill=\"#000\"/>\n<g transform=\"translate(0 -13)\">\n<g transform=\"translate(";
pub const SPEAKER_BODY: &'static str = " 0)\">\n<path d=\"M10 45h9v14h-9zM19 41h5v22h-5zM24 36h5v32h-5z\" fill=\"#f8fafc\"/>\n";
pub const SPEAKER_END: &'static str = "\n</g>\n";
pub const BAR_OPEN: &'static str = "\n<rect x=\"18\" y=\"75\" width=\"140\" height=\"8\" fill=\"#20242c\"/>\n<rect x=\"18\" y=\"75\" width=\"";
pub const BAR_FILL: &'static str = "\" height=\"8\" fill=\"";
pub const BAR_CLOSE: &'static str = "\"/>\n<path d=\"M31 75v8m14-8v8m14-8v8m14-8v8m14-8v8m14-8v8m14-8v8m14-8v8m14-8v8\" stroke=\"#000\" stroke-width=\"2\"/>\n";
pub const STRIP_CLOSE: &'static str = "\n</g>\n</svg>";

/// Volume shown, at most 100.
pub open spec fn shown_volume(volume: u8) -> nat {
    if volume > 100 {
        100
    } else {
        volume as nat
    }
}

/// The status text: `MUTED`, or the volume in percent.
pub open spec fn status_text(snapshot: AudioSnapshot) -> Seq<char> {
    if snapshot.muted {
        "MUTED"@
    } else {
        decimal(shown_volume(snapshot.volume)) + "%"@
    }
}

pub open spec fn accent_of(muted: bool) -> Seq<char> {
    if muted {
        "#ff3155"@
    } else {
        "#20e3ff"@
    }
}

/// The touch-strip document for a snapshot and a device-switch event.
pub open spec fn snapshot_svg(snapshot: AudioSnapshot, event: Seq<char>) -> Seq<char> {
    let status = status_text(snapshot);
    let accent = accent_of(snapshot.muted);
    let layout = status_layout(span(status.len(), scale(29)) as int);
    let device = truncate_label_spec(uppercase(driver_name_spec(snapshot.device_name@)), 22);
    STRIP_OPEN@ + fixed2(layout.0) + SPEAKER_BODY@ + speaker_waves(
        snapshot.muted,
        peak_level_spec(snapshot.muted, snapshot.peak),
    ) + SPEAKER_END@ + text_path_spec(status, layout.1, 62, 29, accent) + BAR_OPEN@ + decimal(
        shown_volume(snapshot.volume) * 140 / 100,
    ) + BAR_FILL@ + accent + BAR_CLOSE@ + text_path_spec(device, 8800, 102, 10, "#a7b0c0"@)
        + "\n"@ + switch_indicator_spec(event) + STRIP_CLOSE@
}

/// The start of the touch-strip document, up to and including the speaker icon's body:
/// the offset of the speaker group comes from the status text alone.
pub open spec fn speaker_anchor(snapshot: AudioSnapshot) -> Seq<char> {
    STRIP_OPEN@ + fixed2(status_layout(span(status_text(snapshot).len(), scale(29)) as int).0)
        + SPEAKER_BODY@
}

/// The encoded image URI of a strip document that starts with `prefix` starts with the
/// encoded `prefix`.
proof fn lemma_image_prefix(prefix: Seq<char>, rest: Seq<char>)
    ensures
        (svg_uri_prefix() + percent_encoded(encode_utf8(prefix))).is_prefix_of(
            svg_uri_prefix() + percent_encoded(encode_utf8(prefix + rest)),
        ),
{
    crate::pixel::lemma_encode_utf8_concat(prefix, rest);
    crate::pixel::lemma_percent_encoded_concat(encode_utf8(prefix), encode_utf8(rest));
    let head = svg_uri_prefix() + percent_encoded(encode_utf8(prefix));
    let whole = svg_uri_prefix() + percent_encoded(encode_utf8(prefix + rest));
    assert(whole =~= head + percent_encoded(encode_utf8(rest)));
    assert(head =~= whole.subrange(0, head.len() as int));
}

/// The speaker icon does not move with the output peak: two snapshots with the same
/// volume and mute state (the peak, and even the device, may differ) give strip
/// documents, and so images, that begin with the same speaker anchor.
pub proof fn lemma_speaker_anchor_ignores_peak(a: AudioSnapshot, b: AudioSnapshot, event: Seq<char>)
    requires
        a.volume == b.volume,
        a.muted == b.muted,
    ensures
        speaker_anchor(a) == speaker_anchor(b),
        speaker_anchor(a).is_prefix_of(snapshot_svg(a, event)),
        speaker_anchor(b).is_prefix_of(snapshot_svg(b, event)),
        (svg_uri_prefix() + percent_encoded(encode_utf8(speaker_anchor(a)))).is_prefix_of(
            svg_uri_prefix() + percent_encoded(encode_utf8(snapshot_svg(a, event))),
        ),
        (svg_uri_prefix() + percent_encoded(encode_utf8(speaker_anchor(b)))).is_prefix_of(
            svg_uri_prefix() + percent_encoded(encode_utf8(snapshot_svg(b, event))),
        ),
{
    lemma_anchor_starts_svg(a, event);
    lemma_anchor_starts_svg(b, event);
}

proof fn lemma_anchor_starts_svg(s: AudioSnapshot, event: Seq<char>)
    ensures
        speaker_anchor(s).is_prefix_of(snapshot_svg(s, event)),
        (svg_uri_prefix() + percent_encoded(encode_utf8(speaker_anchor(s)))).is_prefix_of(
            svg_uri_prefix() + percent_encoded(encode_utf8(snapshot_svg(s, event))),
        ),
{
    let status = status_text(s);
    let accent = accent_of(s.muted);
    let layout = status_layout(span(status.len(), scale(29)) as int);
    let device = truncate_label_spec(uppercase(driver_name_spec(s.device_name@)), 22);
    let rest = speaker_waves(s.muted, peak_level_spec(s.muted, s.peak)) + SPEAKER_END@
        + text_path_spec(status, layout.1, 62, 29, accent) + BAR_OPEN@ + decimal(
        shown_volume(s.volume) * 140 / 100,
    ) + BAR_FILL@ + accent + BAR_CLOSE@ + text_path_spec(device, 8800, 102, 10, "#a7b0c0"@)
        + "\n"@ + switch_indicator_spec(event) + STRIP_CLOSE@;
    let anchor = speaker_anchor(s);
    assert(snapshot_svg(s, event) =~= anchor + rest);
    assert(anchor =~= (anchor + rest).subrange(0, anchor.len() as int));
    lemma_image_prefix(anchor, rest);
}

/// The 176x112 touch-strip image of the volume dial: speaker with sound waves, volume
/// or `MUTED`, volume bar, device name, and the device-switch chevron of `event`.
pub fn snapshot_image(snapshot: &AudioSnapshot, event: &str) -> (uri: String)
    ensures
        uri@ == svg_uri_prefix() + percent_encoded(encode_utf8(snapshot_svg(*snapshot, event@))),
{
    let volume: u8 = if snapshot.volume > 100 { 100 } else { snapshot.volume };
    let bar_width: u64 = (volume as u64) * 140 / 100;
    let accent = if snapshot.muted { "#ff3155" } else { "#20e3ff" };
    let mut status = String::new();
    if snapshot.muted {
        push_str(&mut status, "MUTED");
    } else {
        push_u64(&mut status, volume as u64);
        push_str(&mut status, "%");
    }
    let name = driver_name(snapshot.device_name.as_str());
    let upper = to_uppercase(name.as_str());
    let device_name = truncate_label(upper.as_str(), 22);
    let (speaker_offset, status_center) = centered_status_layout(status.as_str());
    proof {
        let w = span(status@.len(), scale(29));
        reveal_strlit("MUTED");
        reveal_strlit("%");
        crate::text::lemma_decimal_len_small(volume as nat);
        assert(status@.len() <= 5);
        assert(w <= 5 * 6 * 4) by (nonlinear_arith)
            requires w == span(status@.len(), 4), status@.len() <= 5;
    }
    let status_path = text_path(status.as_str(), status_center as i64, 62, 29, accent);
    let device_path = text_path(device_name.as_str(), 8800, 102, 10, "#a7b0c0");
    let level = peak_level(snapshot);
    let waves = if snapshot.muted {
        MUTED_WAVES
    } else if level == 0 {
        ""
    } else if level == 1 {
        WAVES_1
    } else if level == 2 {
        WAVES_2
    } else {
        WAVES_3
    };
    let switch_indicator = device_switch_indicator(event);
    let mut svg = String::new();
    push_str(&mut svg, STRIP_OPEN);
    push_fixed2(&mut svg, speaker_offset);
    push_str(&mut svg, SPEAKER_BODY);
    push_str(&mut svg, waves);
    push_str(&mut svg, SPEAKER_END);
    push_str(&mut svg, status_path.as_str());
    push_str(&mut svg, BAR_OPEN);
    push_u64(&mut svg, bar_width);
    push_str(&mut svg, BAR_FILL);
    push_str(&mut svg, accent);
    push_str(&mut svg, BAR_CLOSE);
    push_str(&mut svg, device_path.as_str());
    push_str(&mut svg, "\n");
    push_str(&mut svg, switch_indicator);
    push_str(&mut svg, STRIP_CLOSE);
    data_uri(svg.as_str())
}

// ---------------------------------------------------------------------------
// Platform
// ---------------------------------------------------------------------------

/// The default output's state; unavailable outside Windows.
pub fn snapshot() -> (r: Result<AudioSnapshot, String>)
    ensures
        r matches Err(m) && m@ == UNSUPPORTED@,
{
    Err(owned(UNSUPPORTED))
}

/// Changes the volume by `delta` points; unavailable outside Windows.
pub fn change_volume(delta: i32) -> (r: Result<AudioSnapshot, String>)
    ensures
        r matches Err(m) && m@ == UNSUPPORTED@,
{
    Err(owned(UNSUPPORTED))
}

/// Makes another output device the default; unavailable outside Windows.
pub fn switch_device(direction: i32) -> (r: Result<AudioSnapshot, String>)
    ensures
        r matches Err(m) && m@ == UNSUPPORTED@,
{
    Err(owned(UNSUPPORTED))
}

/// Stops showing the volume image on `context`. With the last one the animation is
/// released and returned, and the caller must stop it.
pub fn disappear<W: LiveWorker>(live: &mut LiveAction<W>, context: &str) -> (to_stop: Option<W>)
    requires
        old(live).wf(),
    ensures
        final(live).wf(),
        final(live).subscribed().to_set() == old(live).subscribed().to_set().remove(context@),
        final(live).subscribed().len() == 0 ==> !final(live).has_worker(),
        final(live).subscribed().len() > 0 ==> final(live).worker_spec() == old(live).worker_spec(),
        to_stop == (if final(live).subscribed().len() == 0 {
            old(live).worker_spec()
        } else {
            None
        }),
{
    live.unsubscribe(context)
}

// ---------------------------------------------------------------------------
// Dial presses
// ---------------------------------------------------------------------------

/// Whether a press at `at` is still within the double-press window at `now`.
pub open spec fn recent(at: u64, now: u64) -> bool {
    (if now >= at {
        now - at
    } else {
        0
    }) <= DOUBLE_PRESS_MS
}

/// The presses of `presses` still within the double-press window at `now`.
pub open spec fn recent_presses(presses: Map<Seq<char>, u64>, now: u64) -> Map<Seq<char>, u64> {
    Map::new(|c: Seq<char>| presses.dom().contains(c) && recent(presses[c], now), |c: Seq<char>| presses[c])
}

pub open spec fn press_key() -> spec_fn((String, u64)) -> Seq<char> {
    |p: (String, u64)| p.0@
}

pub open spec fn press_time() -> spec_fn((String, u64)) -> u64 {
    |p: (String, u64)| p.1
}

/// The last unanswered press of each dial, by context, in milliseconds on a monotonic
/// clock.
pub struct PressTracker {
    presses: Vec<(String, u64)>,
}

impl PressTracker {
    /// The last unanswered press of each dial.
    pub closed spec fn view(&self) -> Map<Seq<char>, u64> {
        keyed_map(self.presses@, press_key(), press_time())
    }

    /// Each dial occurs once.
    pub closed spec fn wf(&self) -> bool {
        unique_keys(self.presses@, press_key())
    }

    /// No presses.
    pub fn new() -> (r: Self)
        ensures
            r.wf(),
            r@ == Map::<Seq<char>, u64>::empty(),
    {
        let r = PressTracker { presses: Vec::new() };
        assert(r@ =~= Map::<Seq<char>, u64>::empty());
        r
    }

    /// Records a press of the dial on `context` at `now` and says whether it is a double
    /// press: one that follows an unanswered press of that dial within `DOUBLE_PRESS_MS`.
    /// Presses older than that are forgotten; a double press answers the press before it,
    /// any other press waits for its answer.
    pub fn press(&mut self, context: &str, now: u64) -> (double: bool)
        requires
            old(self).wf(),
        ensures
            final(self).wf(),
            double == recent_presses(old(self)@, now).dom().contains(context@),
            double ==> final(self)@ == recent_presses(old(self)@, now).remove(context@),
            !double ==> final(self)@ == recent_presses(old(self)@, now).insert(context@, now),
    {
        let ghost before = self.presses@;
        let ghost m = keyed_map(before, press_key(), press_time());
        let mut kept: Vec<(String, u64)> = Vec::new();
        let mut i: usize = 0;
        assert(keyed_map(kept@, press_key(), press_time()) =~= recent_presses(
            keyed_map(before.take(0), press_key(), press_time()),
            now,
        ));
        while i < self.presses.len()
            invariant
                self.presses@ == before,
                unique_keys(before, press_key()),
                i <= before.len(),
                unique_keys(kept@, press_key()),
                forall|k: Seq<char>| has_key(kept@, press_key(), k) ==> has_key(before.take(i as int), press_key(), k),
                keyed_map(kept@, press_key(), press_time()) == recent_presses(
                    keyed_map(before.take(i as int), press_key(), press_time()),
                    now,
                ),
            decreases before.len() - i,
        {
            let at = self.presses[i].1;
            let ghost e = before[i as int];
            let ghost prefix = before.take(i as int);
            proof {
                assert(before.take(i + 1) == prefix.push(e));
                assert(unique_keys(prefix, press_key())) by {
                    assert forall|a: int, b: int| 0 <= a < prefix.len() && 0 <= b < prefix.len() && a != b implies
                        press_key()(prefix[a]) != press_key()(prefix[b]) by {
                        assert(prefix[a] == before[a] && prefix[b] == before[b]);
                    }
                }
                assert(!has_key(prefix, press_key(), press_key()(e))) by {
                    if has_key(prefix, press_key(), press_key()(e)) {
                        let j = choose|j: int| 0 <= j < prefix.len() && press_key()(prefix[j]) == press_key()(e);
                        assert(prefix[j] == before[j]);
                    }
                }
                lemma_keyed_push(prefix, press_key(), press_time(), e);
            }
            let elapsed = if now >= at { now - at } else { 0 };
            if elapsed <= DOUBLE_PRESS_MS {
                let item = (self.presses[i].0.clone(), at);
                let ghost kept_before = kept@;
                proof {
                    assert(!has_key(kept@, press_key(), press_key()(e)));
                    lemma_keyed_push(kept@, press_key(), press_time(), item);
                }
                kept.push(item);
                proof {
                    assert forall|k: Seq<char>| has_key(kept@, press_key(), k) implies has_key(before.take(i + 1), press_key(), k) by {
                        let j = choose|j: int| 0 <= j < kept@.len() && press_key()(kept@[j]) == k;
                        if j < kept@.len() - 1 {
                            assert(kept@[j] == kept_before[j]);
                            assert(has_key(kept_before, press_key(), k));
                            let x = choose|x: int| 0 <= x < prefix.len() && press_key()(prefix[x]) == k;
                            assert(before.take(i + 1)[x] == prefix[x]);
                        } else {
                            assert(before.take(i + 1)[i as int] == e);
                        }
                    }
                    assert(keyed_map(kept@, press_key(), press_time()) =~= recent_presses(
                        keyed_map(before.take(i + 1), press_key(), press_time()),
                        now,
                    ));
                }
            } else {
                proof {
                    assert forall|k: Seq<char>| has_key(kept@, press_key(), k) implies has_key(before.take(i + 1), press_key(), k) by {
                        let x = choose|x: int| 0 <= x < prefix.len() && press_key()(prefix[x]) == k;
                        assert(before.take(i + 1)[x] == prefix[x]);
                    }
                    assert(keyed_map(kept@, press_key(), press_time()) =~= recent_presses(
                        keyed_map(before.take(i + 1), press_key(), press_time()),
                        now,
                    ));
                }
            }
            i = i + 1;
        }
        assert(before.take(before.len() as int) == before);
        self.presses = kept;
        let c = chars_of(context);
        let ghost r = self.presses@;
        proof {
            assert(unique_keys(r, press_key()));
        }
        let mut j: usize = 0;
        while j < self.presses.len()
            invariant
                self.presses@ == r,
                unique_keys(r, press_key()),
                m == old(self)@,
                keyed_map(r, press_key(), press_time()) == recent_presses(m, now),
                j <= r.len(),
                c@ == context@,
                forall|x: int| 0 <= x < j ==> press_key()(r[x]) != context@,
            decreases r.len() - j,
        {
            if eq_chars_str(&c, self.presses[j].0.as_str()) {
                proof {
                    assert(press_key()(r[j as int]) == context@);
                    lemma_keyed_remove(r, press_key(), press_time(), j as int);
                    lemma_keyed_get(r, press_key(), press_time(), j as int);
                }
                self.presses.remove(j);
                return true;
            }
            j = j + 1;
        }
        let item = (owned(context), now);
        proof {
            assert(!has_key(r, press_key(), context@)) by {
                if has_key(r, press_key(), context@) {
                    let x = choose|x: int| 0 <= x < r.len() && press_key()(r[x]) == context@;
                }
            }
            lemma_keyed_push(r, press_key(), press_time(), item);
        }
        self.presses.push(item);
        false
    }
}

/// A press that follows an unanswered press of the same dial within `DOUBLE_PRESS_MS`
/// is a double press.
pub proof fn lemma_second_press_is_double(presses: Map<Seq<char>, u64>, context: Seq<char>, first: u64, second: u64)
    requires
        first <= second,
        second - first <= DOUBLE_PRESS_MS,
    ensures
        recent_presses(presses.insert(context, first), second).dom().contains(context),
{
}

/// Whether a press that comes after a double press's answer is a double press depends only
/// on presses made after it: the answered press is gone.
pub proof fn lemma_double_press_answers(presses: Map<Seq<char>, u64>, context: Seq<char>, now: u64)
    ensures
        !recent_presses(presses, now).remove(context).dom().contains(context),
{
}

/// Where a dial press moves the default output: two devices back and "PREV" for a double
/// press (undoing the single press before it and going one further), one forward and
/// "NEXT" otherwise.
pub fn press_plan(double: bool) -> (r: (i32, &'static str))
    ensures
        r.0 == (if double { -2i32 } else { 1i32 }),
        r.1@ == (if double { "PREV"@ } else { "NEXT"@ }),
{
    if double {
        (-2, "PREV")
    } else {
        (1, "NEXT")
    }
}

/// Which output device becomes the default when the dial moves `direction` devices from
/// the current one: the devices in their listed order, wrapping around; the first when
/// the current one is not listed. Needs at least two devices.
pub open spec fn switch_target_spec(ids: Seq<Seq<char>>, current: Seq<char>, direction: int) -> Result<int, Seq<char>> {
    if ids.len() < 2 {
        Err("at least two active sound output devices are required"@)
    } else {
        Ok((current_index(ids, current) + direction) % (ids.len() as int))
    }
}

/// Where the current device stands in `ids`; the first place when it is not listed.
pub open spec fn current_index(ids: Seq<Seq<char>>, current: Seq<char>) -> int {
    if ids.contains(current) {
        choose|i: int| 0 <= i < ids.len() && ids[i] == current && forall|j: int| 0 <= j < i ==> ids[j] != current
    } else {
        0
    }
}

/// The index of the device to switch to (see `switch_target_spec`).
pub fn switch_target(ids: &Vec<String>, current: &str, direction: i32) -> (r: Result<usize, String>)
    requires
        ids@.len() <= i32::MAX,
        ids@.len() >= 2 ==> current_index(string_views(ids@), current@) + direction <= i32::MAX,
    ensures
        match r {
            Ok(t) => switch_target_spec(string_views(ids@), current@, direction as int) == Ok::<int, Seq<char>>(t as int),
            Err(e) => switch_target_spec(string_views(ids@), current@, direction as int) == Err::<int, Seq<char>>(e@),
        },
{
    let ghost v = string_views(ids@);
    if ids.len() < 2 {
        return Err(owned("at least two active sound output devices are required"));
    }
    let c = chars_of(current);
    let mut p: usize = 0;
    let mut found = false;
    while p < ids.len() && !found
        invariant
            p <= ids@.len(),
            v == string_views(ids@),
            c@ == current@,
            forall|x: int| 0 <= x < p ==> v[x] != current@,
            found ==> p < ids@.len() && v[p as int] == current@,
        decreases ids@.len() - p, if found { 0int } else { 1int },
    {
        if eq_chars_str(&c, ids[p].as_str()) {
            found = true;
        } else {
            p = p + 1;
        }
    }
    let from: usize = if found {
        proof {
            assert(v.contains(current@));
            let q = choose|q: int| 0 <= q < v.len() && v[q] == current@ && forall|j: int| 0 <= j < q ==> v[j] != current@;
            assert(q == p) by {
                if q > p {
                    assert(v[p as int] == current@);
                }
            }
        }
        p
    } else {
        proof {
            assert(!v.contains(current@)) by {
                if v.contains(current@) {
                    let x = choose|x: int| 0 <= x < v.len() && v[x] == current@;
                }
            }
        }
        0
    };
    let n = ids.len() as u64;
    let sum: i64 = from as i64 + direction as i64;
    let t: u64 = if sum >= 0 {
        (sum as u64) % n
    } else {
        let k = ((0 - sum) as u64) % n;
        if k == 0 { 0 } else { n - k }
    };
    proof {
        let ni = n as int;
        let si = sum as int;
        if si >= 0 {
            assert(t as int == si % ni);
        } else {
            let k = ((0 - si) % ni);
            assert(0 <= k < ni) by (nonlinear_arith) requires ni >= 2, k == (0 - si) % ni;
            assert((if k == 0 { 0 } else { ni - k }) == si % ni) by (nonlinear_arith)
                requires
                    ni >= 2,
                    si < 0,
                    k == (0 - si) % ni,
            {
                let q = (0 - si) / ni;
                assert(0 - si == q * ni + k);
                if k == 0 {
                    assert(si == (0 - q) * ni);
                } else {
                    assert(si == (0 - q - 1) * ni + (ni - k));
                }
            }
        }
    }
    Ok(t as usize)
}

} // verus!

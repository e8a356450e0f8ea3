//! The system-monitor dial: CPU, GPU and memory load (or one metric) drawn on the
//! touch strip, in a compact, normal or full layout with a load history.
//!
//! The history chart is drawn with plotters from the verified series, sizes and colours;
//! the full layouts embed the contents of that SVG document. Reading the machine's
//! counters is Windows-only and not part of this crate: its sampler reports nothing.

use vstd::prelude::*;
use crate::fetch::opt_view;
use crate::live::{LiveAction, LiveWorker};
use plotters::prelude::{ChartBuilder, IntoDrawingArea, LineSeries, RGBColor, SVGBackend};
use crate::pixel::{data_uri, percent_encoded, svg_uri_prefix, text_path, text_path_spec};
use crate::settings::{SettingsValue, setting, setting_value};
use crate::text::{
    chars_of, decimal, digit_char, eq_chars, eq_chars_str, push_char, push_str, push_u64, push_u128,
    string_of,
};
use vstd::utf8::encode_utf8;
use std::collections::VecDeque;

verus! {

broadcast use vstd::string::group_string_axioms;

pub const ACTION: &'static str = "com.amansprojects.starterpack.systemmonitor";
/// Milliseconds between two samples.
pub const SAMPLE_INTERVAL_MS: u64 = 2000;
/// Number of samples the history keeps.
pub const HISTORY_LENGTH: usize = 30;

/// One sample of the machine's load.
pub struct MonitorSnapshot {
    pub cpu: u8,
    pub gpu: Option<u8>,
    pub cpu_temperature: Option<u8>,
    pub gpu_temperature: Option<u8>,
    pub memory: u8,
    pub memory_total_mib: u64,
    pub memory_available_mib: u64,
    pub pagefile_total_mib: u64,
    pub pagefile_available_mib: u64,
}

pub open spec fn saturating_sub(a: u64, b: u64) -> u64 {
    if a >= b {
        (a - b) as u64
    } else {
        0
    }
}

impl MonitorSnapshot {
    /// Memory in use: total less available, never below zero.
    pub fn memory_used_mib(&self) -> (r: u64)
        ensures
            r == saturating_sub(self.memory_total_mib, self.memory_available_mib),
    {
        if self.memory_total_mib >= self.memory_available_mib {
            self.memory_total_mib - self.memory_available_mib
        } else {
            0
        }
    }

    /// Page file in use: total less available, never below zero.
    pub fn pagefile_used_mib(&self) -> (r: u64)
        ensures
            r == saturating_sub(self.pagefile_total_mib, self.pagefile_available_mib),
    {
        if self.pagefile_total_mib >= self.pagefile_available_mib {
            self.pagefile_total_mib - self.pagefile_available_mib
        } else {
            0
        }
    }
}

/// How much the dial shows.
#[derive(Clone, Copy, Debug, PartialEq, Eq, Structural)]
pub enum DisplayMode {
    Compact,
    Normal,
    Full,
}

/// Which load the dial shows: all three, or one metric.
#[derive(Clone, Copy, Debug, PartialEq, Eq, Structural)]
pub enum DisplayMetric {
    Overview,
    Cpu,
    Gpu,
    Memory,
    CpuTemperature,
    GpuTemperature,
}

/// The metric a `metric` setting names (current and legacy names), else the overview.
pub open spec fn metric_of(text: Option<Seq<char>>) -> DisplayMetric {
    match text {
        Some(t) => if t == "cpu"@ {
            DisplayMetric::Cpu
        } else if t == "gpu"@ {
            DisplayMetric::Gpu
        } else if t == "memory"@ || t == "ram"@ {
            DisplayMetric::Memory
        } else if t == "cpu-temperature"@ || t == "cpu_temp"@ {
            DisplayMetric::CpuTemperature
        } else if t == "gpu-temperature"@ || t == "gpu_temp"@ {
            DisplayMetric::GpuTemperature
        } else {
            DisplayMetric::Overview
        },
        None => DisplayMetric::Overview,
    }
}

/// The layout a `mode` setting names (current and legacy names), else the normal one.
pub open spec fn mode_of(text: Option<Seq<char>>) -> DisplayMode {
    match text {
        Some(t) => if t == "compact"@ || t == "mini"@ {
            DisplayMode::Compact
        } else if t == "full"@ {
            DisplayMode::Full
        } else {
            DisplayMode::Normal
        },
        None => DisplayMode::Normal,
    }
}

/// The text of a JSON value when it is a string.
pub open spec fn text_of(value: Option<SettingsValue>) -> Option<Seq<char>> {
    match value {
        Some(SettingsValue::String(s)) => Some(s@),
        _ => None,
    }
}

fn text_chars(value: Option<&SettingsValue>) -> (r: Option<Vec<char>>)
    ensures
        match r {
            Some(c) => text_of(match value { Some(v) => Some(*v), None => None }) == Some(c@),
            None => text_of(match value { Some(v) => Some(*v), None => None }) is None,
        },
{
    match value {
        Some(SettingsValue::String(s)) => Some(chars_of(s.as_str())),
        _ => None,
    }
}

impl DisplayMetric {
    /// The metric a `metric` setting value names.
    pub fn from_value(value: Option<&SettingsValue>) -> (r: Self)
        ensures
            r == metric_of(text_of(match value { Some(v) => Some(*v), None => None })),
    {
        match text_chars(value) {
            Some(t) => {
                if eq_chars_str(&t, "cpu") {
                    DisplayMetric::Cpu
                } else if eq_chars_str(&t, "gpu") {
                    DisplayMetric::Gpu
                } else if eq_chars_str(&t, "memory") || eq_chars_str(&t, "ram") {
                    DisplayMetric::Memory
                } else if eq_chars_str(&t, "cpu-temperature") || eq_chars_str(&t, "cpu_temp") {
                    DisplayMetric::CpuTemperature
                } else if eq_chars_str(&t, "gpu-temperature") || eq_chars_str(&t, "gpu_temp") {
                    DisplayMetric::GpuTemperature
                } else {
                    DisplayMetric::Overview
                }
            },
            None => DisplayMetric::Overview,
        }
    }

    pub open spec fn label_spec(self) -> Seq<char> {
        match self {
            DisplayMetric::Overview => "SYSTEM"@,
            DisplayMetric::Cpu => "CPU USAGE"@,
            DisplayMetric::Gpu => "GPU USAGE"@,
            DisplayMetric::Memory => "MEMORY"@,
            DisplayMetric::CpuTemperature => "CPU TEMP"@,
            DisplayMetric::GpuTemperature => "GPU TEMP"@,
        }
    }

    /// The metric's title.
    pub fn label(self) -> (r: &'static str)
        ensures
            r@ == self.label_spec(),
    {
        match self {
            DisplayMetric::Overview => "SYSTEM",
            DisplayMetric::Cpu => "CPU USAGE",
            DisplayMetric::Gpu => "GPU USAGE",
            DisplayMetric::Memory => "MEMORY",
            DisplayMetric::CpuTemperature => "CPU TEMP",
            DisplayMetric::GpuTemperature => "GPU TEMP",
        }
    }

    pub open spec fn short_label_spec(self) -> Seq<char> {
        match self {
            DisplayMetric::Overview => "SYS"@,
            DisplayMetric::Cpu => "CPU"@,
            DisplayMetric::Gpu => "GPU"@,
            DisplayMetric::Memory => "RAM"@,
            DisplayMetric::CpuTemperature => "CPU TEMP"@,
            DisplayMetric::GpuTemperature => "GPU TEMP"@,
        }
    }

    /// The metric's short title.
    pub fn short_label(self) -> (r: &'static str)
        ensures
            r@ == self.short_label_spec(),
    {
        match self {
            DisplayMetric::Overview => "SYS",
            DisplayMetric::Cpu => "CPU",
            DisplayMetric::Gpu => "GPU",
            DisplayMetric::Memory => "RAM",
            DisplayMetric::CpuTemperature => "CPU TEMP",
            DisplayMetric::GpuTemperature => "GPU TEMP",
        }
    }

    pub open spec fn color_spec(self) -> Seq<char> {
        match self {
            DisplayMetric::Overview | DisplayMetric::Cpu => "#20e3ff"@,
            DisplayMetric::Gpu => "#ff4fd8"@,
            DisplayMetric::Memory => "#facc15"@,
            DisplayMetric::CpuTemperature => "#fb923c"@,
            DisplayMetric::GpuTemperature => "#a3e635"@,
        }
    }

    /// The metric's colour.
    pub fn color(self) -> (r: &'static str)
        ensures
            r@ == self.color_spec(),
    {
        match self {
            DisplayMetric::Overview | DisplayMetric::Cpu => "#20e3ff",
            DisplayMetric::Gpu => "#ff4fd8",
            DisplayMetric::Memory => "#facc15",
            DisplayMetric::CpuTemperature => "#fb923c",
            DisplayMetric::GpuTemperature => "#a3e635",
        }
    }

    pub open spec fn value_spec(self, snapshot: MonitorSnapshot) -> Option<u8> {
        match self {
            DisplayMetric::Overview => None,
            DisplayMetric::Cpu => Some(snapshot.cpu),
            DisplayMetric::Gpu => snapshot.gpu,
            DisplayMetric::Memory => Some(snapshot.memory),
            DisplayMetric::CpuTemperature => snapshot.cpu_temperature,
            DisplayMetric::GpuTemperature => snapshot.gpu_temperature,
        }
    }

    /// The metric's reading in a sample, when there is one.
    pub fn value(self, snapshot: &MonitorSnapshot) -> (r: Option<u8>)
        ensures
            r == self.value_spec(*snapshot),
    {
        match self {
            DisplayMetric::Overview => None,
            DisplayMetric::Cpu => Some(snapshot.cpu),
            DisplayMetric::Gpu => snapshot.gpu,
            DisplayMetric::Memory => Some(snapshot.memory),
            DisplayMetric::CpuTemperature => snapshot.cpu_temperature,
            DisplayMetric::GpuTemperature => snapshot.gpu_temperature,
        }
    }

    pub open spec fn formatted_value_spec(self, snapshot: MonitorSnapshot) -> Seq<char> {
        match self.value_spec(snapshot) {
            Some(v) => if self == DisplayMetric::CpuTemperature || self == DisplayMetric::GpuTemperature {
                decimal(v as nat) + " C"@
            } else {
                decimal(v as nat) + "%"@
            },
            None => "--"@,
        }
    }

    /// The reading as shown: degrees for temperatures, percent otherwise, `--` if missing.
    pub fn formatted_value(self, snapshot: &MonitorSnapshot) -> (r: String)
        ensures
            r@ == self.formatted_value_spec(*snapshot),
    {
        let mut s = String::new();
        match self.value(snapshot) {
            Some(v) => {
                push_u64(&mut s, v as u64);
                match self {
                    DisplayMetric::CpuTemperature | DisplayMetric::GpuTemperature => push_str(&mut s, " C"),
                    _ => push_str(&mut s, "%"),
                }
            },
            None => push_str(&mut s, "--"),
        }
        s
    }
}

/// Layout and metric of one dial.
#[derive(Clone, Copy, Debug, PartialEq, Eq, Structural)]
pub struct MonitorSettings {
    pub mode: DisplayMode,
    pub metric: DisplayMetric,
}

impl Default for MonitorSettings {
    /// The normal layout of the overview.
    fn default() -> (r: Self)
        ensures
            r.mode == DisplayMode::Normal,
            r.metric == DisplayMetric::Overview,
    {
        MonitorSettings { mode: DisplayMode::Normal, metric: DisplayMetric::Overview }
    }
}

impl MonitorSettings {
    /// The layout and metric the `mode` and `metric` settings name.
    pub fn from_settings(settings: &SettingsValue) -> (r: Self)
        ensures
            r.mode == mode_of(text_of(setting(*settings, "mode"@))),
            r.metric == metric_of(text_of(setting(*settings, "metric"@))),
    {
        let mode = match text_chars(setting_value(settings, "mode")) {
            Some(t) => {
                if eq_chars_str(&t, "compact") || eq_chars_str(&t, "mini") {
                    DisplayMode::Compact
                } else if eq_chars_str(&t, "full") {
                    DisplayMode::Full
                } else {
                    DisplayMode::Normal
                }
            },
            None => DisplayMode::Normal,
        };
        let metric = DisplayMetric::from_value(setting_value(settings, "metric"));
        MonitorSettings { mode, metric }
    }
}

/// The loads of one sample that the history keeps.
#[derive(Clone, Copy, Debug)]
pub struct HistoryPoint {
    pub cpu: u8,
    pub gpu: Option<u8>,
    pub cpu_temperature: Option<u8>,
    pub gpu_temperature: Option<u8>,
    pub memory: u8,
}

impl HistoryPoint {
    /// The loads of a sample.
    pub fn from_snapshot(snapshot: &MonitorSnapshot) -> (r: Self)
        ensures
            r.cpu == snapshot.cpu,
            r.gpu == snapshot.gpu,
            r.cpu_temperature == snapshot.cpu_temperature,
            r.gpu_temperature == snapshot.gpu_temperature,
            r.memory == snapshot.memory,
    {
        HistoryPoint {
            cpu: snapshot.cpu,
            gpu: snapshot.gpu,
            cpu_temperature: snapshot.cpu_temperature,
            gpu_temperature: snapshot.gpu_temperature,
            memory: snapshot.memory,
        }
    }
}

/// Appends a sample to the history, dropping the oldest one when it is full.
pub fn push_history(history: &mut VecDeque<HistoryPoint>, point: HistoryPoint)
    requires
        old(history)@.len() <= HISTORY_LENGTH,
    ensures
        final(history)@ == if old(history)@.len() == HISTORY_LENGTH {
            old(history)@.drop_first().push(point)
        } else {
            old(history)@.push(point)
        },
        final(history)@.len() <= HISTORY_LENGTH,
{
    if history.len() == HISTORY_LENGTH {
        history.pop_front();
    }
    history.push_back(point);
}

/// The last rendered sample with the history up to it.
pub struct RenderState {
    pub snapshot: MonitorSnapshot,
    pub history: VecDeque<HistoryPoint>,
}

// ---------------------------------------------------------------------------
// Chart series
// ---------------------------------------------------------------------------

/// The chart points of the first `n` history entries for a series: the x position puts
/// the newest sample at the right edge of a 30-sample axis; samples without a reading
/// are skipped.
pub open spec fn series(history: Seq<HistoryPoint>, metric: DisplayMetric, cap: bool, n: nat) -> Seq<(i32, i32)>
    decreases n,
{
    if n == 0 {
        Seq::empty()
    } else {
        let before = series(history, metric, cap, (n - 1) as nat);
        let p = history[n - 1];
        let reading: Option<u8> = match metric {
            DisplayMetric::Cpu => Some(p.cpu),
            DisplayMetric::Gpu => p.gpu,
            DisplayMetric::Memory => Some(p.memory),
            DisplayMetric::CpuTemperature => p.cpu_temperature,
            DisplayMetric::GpuTemperature => p.gpu_temperature,
            DisplayMetric::Overview => None,
        };
        match reading {
            Some(v) => before.push(
                (
                    (HISTORY_LENGTH - history.len() + (n - 1)) as i32,
                    (if cap && v > 100 {
                        100
                    } else {
                        v
                    }) as i32,
                ),
            ),
            None => before,
        }
    }
}

/// Every chart point lies on the 30-sample x axis with a reading of at most 255.
pub proof fn lemma_series_in_frame(history: Seq<HistoryPoint>, metric: DisplayMetric, cap: bool, n: nat)
    requires
        n <= history.len() <= HISTORY_LENGTH,
    ensures
        forall|j: int|
            0 <= j < series(history, metric, cap, n).len() ==> 0 <= #[trigger] series(history, metric, cap, n)[j].0
                <= HISTORY_LENGTH - 1 && 0 <= series(history, metric, cap, n)[j].1 <= 255,
    decreases n,
{
    if n > 0 {
        lemma_series_in_frame(history, metric, cap, (n - 1) as nat);
        let before = series(history, metric, cap, (n - 1) as nat);
        let all = series(history, metric, cap, n);
        assert(all == before || (all.len() == before.len() + 1 && all.drop_last() == before));
        assert forall|j: int| 0 <= j < all.len() implies 0 <= #[trigger] all[j].0 <= HISTORY_LENGTH - 1
            && 0 <= all[j].1 <= 255 by {
            if j < before.len() {
                assert(all[j] == before[j]);
            }
        }
    }
}

/// A reading as a chart plots it: at most 100 when `cap` is set.
pub open spec fn plotted(v: u8, cap: bool) -> int {
    if cap && v > 100 {
        100
    } else {
        v as int
    }
}

/// Each point of a series plots the reading of one sample: its x position is the
/// sample's place on the 30-sample axis (the newest at the right edge), and its y value
/// that sample's reading of the series' metric (CPU load, GPU load, memory load or a
/// temperature), capped when asked. The points run left to right, every sample gives a
/// CPU or memory point, and the overview itself has no series.
pub proof fn lemma_series_plots_its_samples(history: Seq<HistoryPoint>, metric: DisplayMetric, cap: bool, n: nat)
    requires
        n <= history.len() <= HISTORY_LENGTH,
    ensures
        forall|j: int| 0 <= j < series(history, metric, cap, n).len() ==> {
            let p = #[trigger] series(history, metric, cap, n)[j];
            let k = p.0 - (HISTORY_LENGTH - history.len());
            &&& 0 <= k < n
            &&& metric == DisplayMetric::Cpu ==> p.1 == plotted(history[k].cpu, cap)
            &&& metric == DisplayMetric::Memory ==> p.1 == plotted(history[k].memory, cap)
            &&& metric == DisplayMetric::Gpu ==> history[k].gpu is Some && p.1 == plotted(history[k].gpu.unwrap(), cap)
            &&& metric == DisplayMetric::CpuTemperature ==> history[k].cpu_temperature is Some && p.1 == plotted(
                history[k].cpu_temperature.unwrap(),
                cap,
            )
            &&& metric == DisplayMetric::GpuTemperature ==> history[k].gpu_temperature is Some && p.1 == plotted(
                history[k].gpu_temperature.unwrap(),
                cap,
            )
        },
        forall|a: int, b: int|
            0 <= a < b < series(history, metric, cap, n).len() ==> #[trigger] series(history, metric, cap, n)[a].0
                < #[trigger] series(history, metric, cap, n)[b].0,
        metric == DisplayMetric::Cpu || metric == DisplayMetric::Memory ==> series(history, metric, cap, n).len() == n,
        metric == DisplayMetric::Overview ==> series(history, metric, cap, n).len() == 0,
    decreases n,
{
    if n > 0 {
        lemma_series_plots_its_samples(history, metric, cap, (n - 1) as nat);
        let before = series(history, metric, cap, (n - 1) as nat);
        let all = series(history, metric, cap, n);
        let off = HISTORY_LENGTH - history.len();
        assert forall|j: int| 0 <= j < before.len() implies before[j].0 - off < n - 1 by {}
        if all.len() == before.len() + 1 {
            assert(all.drop_last() =~= before);
            assert(all.last().0 == off + (n - 1));
            assert forall|j: int| 0 <= j < before.len() implies all[j] == before[j] by {
                assert(all[j] == all.drop_last()[j]);
            }
        }
    }
}

/// The points of one series of the history chart (`cap` keeps readings at most 100).
pub fn chart_series(history: &VecDeque<HistoryPoint>, metric: DisplayMetric, cap: bool) -> (points: Vec<(i32, i32)>)
    requires
        history@.len() <= HISTORY_LENGTH,
    ensures
        points@ == series(history@, metric, cap, history@.len()),
{
    let offset = HISTORY_LENGTH - history.len();
    let mut points: Vec<(i32, i32)> = Vec::new();
    let mut i: usize = 0;
    while i < history.len()
        invariant
            i <= history@.len() <= HISTORY_LENGTH,
            offset == HISTORY_LENGTH - history@.len(),
            points@ == series(history@, metric, cap, i as nat),
        decreases history@.len() - i,
    {
        let p = history[i];
        let reading: Option<u8> = match metric {
            DisplayMetric::Cpu => Some(p.cpu),
            DisplayMetric::Gpu => p.gpu,
            DisplayMetric::Memory => Some(p.memory),
            DisplayMetric::CpuTemperature => p.cpu_temperature,
            DisplayMetric::GpuTemperature => p.gpu_temperature,
            DisplayMetric::Overview => None,
        };
        match reading {
            Some(v) => {
                let shown: u8 = if cap && v > 100 { 100 } else { v };
                points.push(((offset + i) as i32, shown as i32));
            },
            None => {},
        }
        i = i + 1;
    }
    points
}

/// The index of the first `>` of `s` (`s.len()` if none).
pub open spec fn first_gt(s: Seq<char>) -> nat
    decreases s.len(),
{
    if s.len() == 0 || s[0] == '>' {
        0
    } else {
        1 + first_gt(s.drop_first())
    }
}

/// Whether `</svg>` starts at `i` in `s`.
pub open spec fn svg_end_at(s: Seq<char>, i: int) -> bool {
    0 <= i && i + 6 <= s.len() && s.subrange(i, i + 6) == "</svg>"@
}

/// The start of the last `</svg>` among the first `n` positions of `s`.
pub open spec fn last_svg_end(s: Seq<char>, n: nat) -> Option<nat>
    decreases n,
{
    if n == 0 {
        None
    } else if svg_end_at(s, n - 1) {
        Some((n - 1) as nat)
    } else {
        last_svg_end(s, (n - 1) as nat)
    }
}

/// The contents of a chart document: what lies between the end of its first tag and its
/// last `</svg>`.
pub open spec fn chart_contents(svg: Seq<char>) -> Option<Seq<char>> {
    let start = first_gt(svg) + 1;
    if first_gt(svg) == svg.len() {
        None
    } else {
        match last_svg_end(svg, svg.len()) {
            Some(end) => Some(svg.subrange(start as int, end as int)),
            None => None,
        }
    }
}

/// Whether a chart document can be cut: no `</svg>` ends before its first tag does.
pub open spec fn chart_cuttable(svg: Seq<char>) -> bool {
    first_gt(svg) < svg.len() ==> match last_svg_end(svg, svg.len()) {
        Some(end) => first_gt(svg) + 1 <= end,
        None => true,
    }
}

proof fn lemma_first_gt(s: Seq<char>, a: int)
    requires
        0 <= a <= s.len(),
        forall|k: int| 0 <= k < a ==> #[trigger] s[k] != '>',
        a < s.len() ==> s[a] == '>',
    ensures
        first_gt(s) == a,
    decreases s.len(),
{
    if a > 0 {
        assert forall|k: int| 0 <= k < a - 1 implies #[trigger] s.drop_first()[k] != '>' by {
            assert(s.drop_first()[k] == s[k + 1]);
        }
        assert(s[0] != '>');
        lemma_first_gt(s.drop_first(), a - 1);
    }
}

fn is_svg_end(s: &Vec<char>, i: usize) -> (r: bool)
    ensures
        r == svg_end_at(s@, i as int),
{
    if i > s.len() || s.len() - i < 6 {
        return false;
    }
    let e = chars_of("</svg>");
    proof {
        reveal_strlit("</svg>");
    }
    let mut k: usize = 0;
    while k < 6
        invariant
            k <= 6,
            i + 6 <= s@.len(),
            s@.len() == s.len(),
            s.len() <= usize::MAX,
            e@ == "</svg>"@,
            e@.len() == 6,
            forall|j: int| 0 <= j < k ==> s@[i + j] == e@[j],
        decreases 6 - k,
    {
        assert(i + k < s@.len());
        if s[i + k] != e[k] {
            assert(s@.subrange(i as int, i + 6)[k as int] != e@[k as int]);
            return false;
        }
        k = k + 1;
    }
    assert(s@.subrange(i as int, i + 6) =~= e@);
    true
}

// ---------------------------------------------------------------------------
// Chart drawing
// ---------------------------------------------------------------------------

/// The lines of a chart by view: each line's points and colour.
pub open spec fn line_views(series: Seq<(Vec<(i32, i32)>, (u8, u8, u8))>) -> Seq<(Seq<(i32, i32)>, (u8, u8, u8))> {
    series.map_values(|l: (Vec<(i32, i32)>, (u8, u8, u8))| (l.0@, l.1))
}

/// The SVG document plotters draws for a `width` x `height` chart: the background
/// filled, a `margin`-pixel margin, x from 0 to `x_end` and y from 0 to `y_end`, and one
/// line per series in its colour, in order; nothing when drawing fails.
pub uninterp spec fn line_chart_svg(
    width: u32,
    height: u32,
    margin: u32,
    x_end: i32,
    y_end: i32,
    background: (u8, u8, u8),
    series: Seq<(Seq<(i32, i32)>, (u8, u8, u8))>,
) -> Option<Seq<char>>;

/// Every point of every line lies on the x axis range `0..=x_end` with a y value of at
/// most 255: plotters maps such points to pixel offsets that fit in an `i32`.
pub open spec fn points_in_frame(lines: Seq<(Seq<(i32, i32)>, (u8, u8, u8))>, x_end: i32) -> bool {
    forall|i: int, j: int|
        0 <= i < lines.len() && 0 <= j < lines[i].0.len() ==> 0 <= #[trigger] lines[i].0[j].0 <= x_end
            && 0 <= lines[i].0[j].1 <= 255
}

/// Draws line charts with plotters (`SVGBackend::with_string`, `DrawingArea::fill`,
/// `ChartBuilder` with `margin` and `build_cartesian_2d`, one `LineSeries` per line,
/// `present`) into a `String`. Trusted: the result is `line_chart_svg` of the arguments.
/// The `requires` keeps sizes, margin and points small enough that plotters' pixel
/// arithmetic (`Ranged::map` adds a pixel offset to a saturating float cast) cannot
/// overflow.
#[verifier::external_body]
fn draw_line_chart(
    width: u32,
    height: u32,
    margin: u32,
    x_end: i32,
    y_end: i32,
    background: (u8, u8, u8),
    series: &Vec<(Vec<(i32, i32)>, (u8, u8, u8))>,
) -> (r: Option<String>)
    requires
        0 < width <= 4096,
        0 < height <= 4096,
        2 * margin < width,
        2 * margin < height,
        0 < x_end <= 4096,
        0 < y_end <= 4096,
        points_in_frame(line_views(series@), x_end),
    ensures
        opt_view(r) == line_chart_svg(width, height, margin, x_end, y_end, background, line_views(series@)),
{
    let mut svg = String::new();
    {
        let root = SVGBackend::with_string(&mut svg, (width, height)).into_drawing_area();
        root.fill(&RGBColor(background.0, background.1, background.2)).ok()?;
        let mut chart = ChartBuilder::on(&root).margin(margin).build_cartesian_2d(0..x_end, 0..y_end).ok()?;
        for (points, c) in series.iter() {
            chart.draw_series(LineSeries::new(points.iter().copied(), RGBColor(c.0, c.1, c.2))).ok()?;
        }
        root.present().ok()?;
    }
    Some(svg)
}

/// The size of a history chart: wide and low for the overview, taller for one metric.
pub open spec fn chart_size(metric: DisplayMetric) -> (u32, u32) {
    match metric {
        DisplayMetric::Overview => (172, 43),
        _ => (168, 64),
    }
}

/// The colour of a metric's line.
pub open spec fn line_rgb(metric: DisplayMetric) -> (u8, u8, u8) {
    match metric {
        DisplayMetric::Gpu => (255, 79, 216),
        DisplayMetric::Memory => (250, 204, 21),
        DisplayMetric::CpuTemperature => (251, 146, 60),
        DisplayMetric::GpuTemperature => (163, 230, 53),
        _ => (32, 227, 255),
    }
}

/// The lines of a history chart: CPU, GPU and memory load for the overview, as read;
/// otherwise the one metric, capped at 100.
pub open spec fn chart_lines(history: Seq<HistoryPoint>, metric: DisplayMetric) -> Seq<(Seq<(i32, i32)>, (u8, u8, u8))> {
    let n = history.len();
    match metric {
        DisplayMetric::Overview => seq![
            (series(history, DisplayMetric::Cpu, false, n), line_rgb(DisplayMetric::Cpu)),
            (series(history, DisplayMetric::Gpu, false, n), line_rgb(DisplayMetric::Gpu)),
            (series(history, DisplayMetric::Memory, false, n), line_rgb(DisplayMetric::Memory)),
        ],
        _ => seq![(series(history, metric, true, n), line_rgb(metric))],
    }
}

/// The history chart a dial's layout embeds: nothing unless the layout is full; else the
/// drawing of the chart's lines on black, one-pixel margin, x over the 30 samples and y
/// from 0 to 100, or nothing when drawing fails.
pub open spec fn history_chart_spec(history: Seq<HistoryPoint>, settings: MonitorSettings) -> Seq<char> {
    if settings.mode != DisplayMode::Full {
        seq![]
    } else {
        let size = chart_size(settings.metric);
        match line_chart_svg(
            size.0,
            size.1,
            1,
            (HISTORY_LENGTH - 1) as i32,
            100,
            (0, 0, 0),
            chart_lines(history, settings.metric),
        ) {
            Some(svg) => svg,
            None => seq![],
        }
    }
}

fn line_color(metric: DisplayMetric) -> (r: (u8, u8, u8))
    ensures
        r == line_rgb(metric),
{
    match metric {
        DisplayMetric::Gpu => (255, 79, 216),
        DisplayMetric::Memory => (250, 204, 21),
        DisplayMetric::CpuTemperature => (251, 146, 60),
        DisplayMetric::GpuTemperature => (163, 230, 53),
        _ => (32, 227, 255),
    }
}

/// Draws the history chart a dial's layout embeds (see `history_chart_spec`).
pub fn history_chart(history: &VecDeque<HistoryPoint>, settings: MonitorSettings) -> (r: String)
    requires
        history@.len() <= HISTORY_LENGTH,
    ensures
        r@ == history_chart_spec(history@, settings),
{
    match settings.mode {
        DisplayMode::Full => {},
        _ => {
            return String::new();
        },
    }
    let mut lines: Vec<(Vec<(i32, i32)>, (u8, u8, u8))> = Vec::new();
    let size: (u32, u32) = match settings.metric {
        DisplayMetric::Overview => {
            lines.push((chart_series(history, DisplayMetric::Cpu, false), line_color(DisplayMetric::Cpu)));
            lines.push((chart_series(history, DisplayMetric::Gpu, false), line_color(DisplayMetric::Gpu)));
            lines.push((chart_series(history, DisplayMetric::Memory, false), line_color(DisplayMetric::Memory)));
            (172, 43)
        },
        metric => {
            lines.push((chart_series(history, metric, true), line_color(metric)));
            (168, 64)
        },
    };
    assert(line_views(lines@) =~= chart_lines(history@, settings.metric));
    proof {
        let n = history@.len();
        lemma_series_in_frame(history@, DisplayMetric::Cpu, false, n);
        lemma_series_in_frame(history@, DisplayMetric::Gpu, false, n);
        lemma_series_in_frame(history@, DisplayMetric::Memory, false, n);
        lemma_series_in_frame(history@, settings.metric, true, n);
        let lines_v = chart_lines(history@, settings.metric);
        assert forall|i: int, j: int|
            0 <= i < lines_v.len() && 0 <= j < lines_v[i].0.len() implies 0 <= #[trigger] lines_v[i].0[j].0
                <= 29 && 0 <= lines_v[i].0[j].1 <= 255 by {
            if settings.metric == DisplayMetric::Overview {
                if i == 0 {
                    assert(lines_v[i].0 == series(history@, DisplayMetric::Cpu, false, n));
                } else if i == 1 {
                    assert(lines_v[i].0 == series(history@, DisplayMetric::Gpu, false, n));
                } else {
                    assert(lines_v[i].0 == series(history@, DisplayMetric::Memory, false, n));
                }
            } else {
                assert(lines_v[i].0 == series(history@, settings.metric, true, n));
            }
        }
    }
    match draw_line_chart(size.0, size.1, 1, 29, 100, (0, 0, 0), &lines) {
        Some(svg) => svg,
        None => String::new(),
    }
}

/// The contents of a chart document, as the full layouts embed it.
pub fn chart_fragment(svg: &str) -> (r: Option<String>)
    requires
        chart_cuttable(svg@),
    ensures
        match r {
            Some(f) => chart_contents(svg@) == Some(f@),
            None => chart_contents(svg@) is None,
        },
{
    let s = chars_of(svg);
    let mut a: usize = 0;
    while a < s.len() && s[a] != '>'
        invariant
            a <= s@.len(),
            forall|k: int| 0 <= k < a ==> s@[k] != '>',
        decreases s@.len() - a,
    {
        a = a + 1;
    }
    proof {
        lemma_first_gt(s@, a as int);
    }
    if a == s.len() {
        return None;
    }
    let mut n: usize = s.len();
    proof {
        reveal_strlit("</svg>");
    }
    while n > 0 && !is_svg_end(&s, n - 1)
        invariant
            n <= s@.len(),
            last_svg_end(s@, s@.len()) == last_svg_end(s@, n as nat),
        decreases n,
    {
        n = n - 1;
    }
    if n == 0 {
        return None;
    }
    let end = n - 1;
    let mut out: Vec<char> = Vec::new();
    let mut i = a + 1;
    assert(svg_end_at(s@, end as int));
    while i < end
        invariant
            a + 1 <= i,
            i <= end || end < a + 1,
            end + 6 <= s@.len(),
            out@ == s@.subrange(a + 1, i as int),
        decreases end - i,
    {
        out.push(s[i]);
        assert(s@.subrange(a + 1, i + 1) == s@.subrange(a + 1, i as int).push(s@[i as int]));
        i = i + 1;
    }
    Some(string_of(&out))
}

/// Whether a chart document can be cut (see `chart_cuttable`).
pub fn can_cut_chart(svg: &str) -> (r: bool)
    ensures
        r == chart_cuttable(svg@),
{
    let s = chars_of(svg);
    let mut a: usize = 0;
    while a < s.len() && s[a] != '>'
        invariant
            a <= s@.len(),
            forall|k: int| 0 <= k < a ==> s@[k] != '>',
        decreases s@.len() - a,
    {
        a = a + 1;
    }
    proof {
        lemma_first_gt(s@, a as int);
    }
    if a == s.len() {
        return true;
    }
    let mut n: usize = s.len();
    while n > 0 && !is_svg_end(&s, n - 1)
        invariant
            n <= s@.len(),
            last_svg_end(s@, s@.len()) == last_svg_end(s@, n as nat),
        decreases n,
    {
        n = n - 1;
    }
    if n == 0 {
        return true;
    }
    a + 1 <= n - 1
}

// ---------------------------------------------------------------------------
// Images
// ---------------------------------------------------------------------------

pub const CRISP_OPEN: &'static str = "<svg xmlns=\"http://www.w3.org/2000/svg\" width=\"176\" height=\"112\" viewBox=\"0 0 176 112\" shape-rendering=\"crispEdges\">\n<rect width=\"176\" height=\"112\" fill=\"#000\"/>\n";
pub const PLAIN_OPEN: &'static str = "<svg xmlns=\"http://www.w3.org/2000/svg\" width=\"176\" height=\"112\" viewBox=\"0 0 176 112\">\n<rect width=\"176\" height=\"112\" fill=\"#000\"/>\n";
pub const CLOSE: &'static str = "\n</svg>";
pub const IDLE_SEGMENT: &'static str = "#171c24";
pub const VALUE_COLOR: &'static str = "#f8fafc";

/// `value` percent of `segments`, rounded up.
pub open spec fn active_segments(value: Option<u8>, segments: nat) -> nat {
    match value {
        Some(v) => ((v as nat) * segments + 99) / 100,
        None => 0,
    }
}

/// The first `n` segments of a meter: lit up to `active`, dark after.
pub open spec fn meter_bars(active: nat, color: Seq<char>, y: nat, n: nat) -> Seq<char>
    decreases n,
{
    if n == 0 {
        Seq::empty()
    } else {
        let i = (n - 1) as nat;
        meter_bars(active, color, y, i) + "<rect x=\""@ + decimal(66 + i * 9) + "\" y=\""@
            + decimal(y + 8) + "\" width=\"7\" height=\"16\" fill=\""@ + (if i < active {
            color
        } else {
            IDLE_SEGMENT@
        }) + "\"/>"@
    }
}

/// The reading as a meter shows it: percent, or `--`.
pub open spec fn percent_text(value: Option<u8>) -> Seq<char> {
    match value {
        Some(v) => decimal(v as nat) + "%"@,
        None => "--"@,
    }
}

/// A labelled twelve-segment load meter whose top is at `y`.
pub open spec fn meter_spec(label: Seq<char>, value: Option<u8>, color: Seq<char>, y: u8) -> Seq<char> {
    text_path_spec(label, 2000, y + 13, 10, color) + text_path_spec(
        percent_text(value),
        4700,
        y + 27,
        16,
        VALUE_COLOR@,
    ) + meter_bars(active_segments(value, 12), color, y as nat, 12)
}

fn push_percent(s: &mut String, value: Option<u8>)
    ensures
        final(s)@ == old(s)@ + percent_text(value),
{
    match value {
        Some(v) => {
            push_u64(s, v as u64);
            push_str(s, "%");
        },
        None => push_str(s, "--"),
    }
}

/// A labelled twelve-segment load meter whose top is at `y`.
pub fn meter(label: &str, value: Option<u8>, color: &str, y: u8) -> (r: String)
    requires
        y <= 200,
    ensures
        r@ == meter_spec(label@, value, color@, y),
{
    let active: u64 = match value {
        Some(v) => ((v as u64) * 12 + 99) / 100,
        None => 0,
    };
    let mut reading = String::new();
    push_percent(&mut reading, value);
    let mut out = text_path(label, 2000, y as i64 + 13, 10, color);
    push_str(&mut out, text_path(reading.as_str(), 4700, y as i64 + 27, 16, VALUE_COLOR).as_str());
    let ghost head = out@;
    let mut index: u64 = 0;
    while index < 12
        invariant
            index <= 12,
            out@ == head + meter_bars(active as nat, color@, y as nat, index as nat),
            active == active_segments(value, 12),
        decreases 12 - index,
    {
        push_str(&mut out, "<rect x=\"");
        push_u64(&mut out, 66 + index * 9);
        push_str(&mut out, "\" y=\"");
        push_u64(&mut out, y as u64 + 8);
        push_str(&mut out, "\" width=\"7\" height=\"16\" fill=\"");
        if index < active {
            push_str(&mut out, color);
        } else {
            push_str(&mut out, IDLE_SEGMENT);
        }
        push_str(&mut out, "\"/>");
        index = index + 1;
    }
    out
}

/// The normal overview: CPU, GPU and memory meters.
pub open spec fn medium_svg(snapshot: MonitorSnapshot) -> Seq<char> {
    CRISP_OPEN@ + meter_spec("CPU"@, Some(snapshot.cpu), "#20e3ff"@, 3) + meter_spec(
        "GPU"@,
        snapshot.gpu,
        "#ff4fd8"@,
        39,
    ) + meter_spec("RAM"@, Some(snapshot.memory), "#facc15"@, 75) + CLOSE@
}

pub open spec fn uri_of(svg: Seq<char>) -> Seq<char> {
    svg_uri_prefix() + percent_encoded(encode_utf8(svg))
}

/// The normal overview image: three meters.
pub fn medium_image(snapshot: &MonitorSnapshot) -> (uri: String)
    ensures
        uri@ == uri_of(medium_svg(*snapshot)),
{
    let cpu = meter("CPU", Some(snapshot.cpu), "#20e3ff", 3);
    let gpu = meter("GPU", snapshot.gpu, "#ff4fd8", 39);
    let memory = meter("RAM", Some(snapshot.memory), "#facc15", 75);
    let mut svg = String::new();
    push_str(&mut svg, CRISP_OPEN);
    push_str(&mut svg, cpu.as_str());
    push_str(&mut svg, gpu.as_str());
    push_str(&mut svg, memory.as_str());
    push_str(&mut svg, CLOSE);
    data_uri(svg.as_str())
}

/// Memory in use in whole GiB, rounded to nearest (halves up).
pub open spec fn used_gib(snapshot: MonitorSnapshot) -> nat {
    (saturating_sub(snapshot.memory_total_mib, snapshot.memory_available_mib) as nat + 512) / 1024
}

/// The compact overview: three columns with the CPU and GPU load and the memory in use.
pub open spec fn compact_svg(snapshot: MonitorSnapshot) -> Seq<char> {
    CRISP_OPEN@ + COMPACT_RULES@ + text_path_spec("CPU"@, 2900, 44, 13, "#20e3ff"@) + text_path_spec(
        "GPU"@,
        8800,
        44,
        13,
        "#ff4fd8"@,
    ) + text_path_spec("MEM"@, 14700, 44, 13, "#facc15"@) + text_path_spec(
        percent_text(Some(snapshot.cpu)),
        2900,
        73,
        18,
        VALUE_COLOR@,
    ) + text_path_spec(percent_text(snapshot.gpu), 8800, 72, 18, VALUE_COLOR@) + text_path_spec(
        decimal(used_gib(snapshot)) + "GB"@,
        14700,
        72,
        18,
        VALUE_COLOR@,
    ) + CLOSE@
}

pub const COMPACT_RULES: &'static str = "<path d=\"M58 27v58M117 27v58\" stroke=\"#171c24\"/>\n";

/// The compact overview image.
pub fn compact_image(snapshot: &MonitorSnapshot) -> (uri: String)
    ensures
        uri@ == uri_of(compact_svg(*snapshot)),
{
    let used = snapshot.memory_used_mib() as u128;
    let mut gib = String::new();
    push_u128(&mut gib, (used + 512) / 1024);
    push_str(&mut gib, "GB");
    let mut cpu = String::new();
    push_percent(&mut cpu, Some(snapshot.cpu));
    let mut gpu = String::new();
    push_percent(&mut gpu, snapshot.gpu);
    let mut svg = String::new();
    push_str(&mut svg, CRISP_OPEN);
    push_str(&mut svg, COMPACT_RULES);
    push_str(&mut svg, text_path("CPU", 2900, 44, 13, "#20e3ff").as_str());
    push_str(&mut svg, text_path("GPU", 8800, 44, 13, "#ff4fd8").as_str());
    push_str(&mut svg, text_path("MEM", 14700, 44, 13, "#facc15").as_str());
    push_str(&mut svg, text_path(cpu.as_str(), 2900, 73, 18, VALUE_COLOR).as_str());
    push_str(&mut svg, text_path(gpu.as_str(), 8800, 72, 18, VALUE_COLOR).as_str());
    push_str(&mut svg, text_path(gib.as_str(), 14700, 72, 18, VALUE_COLOR).as_str());
    push_str(&mut svg, CLOSE);
    data_uri(svg.as_str())
}

/// `mib / 1024` with one decimal, the tie between two tenths going to the even one.
pub open spec fn gib_tenths(mib: nat) -> nat {
    let q = mib * 5 / 512;
    let r = mib * 5 % 512;
    if 2 * r > 512 || (2 * r == 512 && q % 2 == 1) {
        q + 1
    } else {
        q
    }
}

/// `mib` in GiB written with one decimal.
pub open spec fn gibibytes_spec(mib: u64) -> Seq<char> {
    let t = gib_tenths(mib as nat);
    decimal(t / 10) + seq!['.', digit_char(t % 10)]
}

/// A size in MiB written in GiB with one decimal.
pub fn gibibytes(mib: u64) -> (r: String)
    ensures
        r@ == gibibytes_spec(mib),
{
    let m = mib as u128;
    let q = m * 5 / 512;
    let rem = m * 5 % 512;
    let t = if 2 * rem > 512 || (2 * rem == 512 && q % 2 == 1) { q + 1 } else { q };
    let mut s = String::new();
    push_u128(&mut s, t / 10);
    push_char(&mut s, '.');
    let d = t % 10;
    let c = if d == 0 { '0' } else if d == 1 { '1' } else if d == 2 { '2' } else if d == 3 { '3' }
        else if d == 4 { '4' } else if d == 5 { '5' } else if d == 6 { '6' } else if d == 7 { '7' }
        else if d == 8 { '8' } else { '9' };
    assert(c == digit_char(d as nat));
    push_char(&mut s, c);
    s
}

pub const FULL_CHART_OPEN: &'static str = "\n<svg x=\"2\" y=\"27\" width=\"172\" height=\"43\" viewBox=\"0 0 172 43\">";
pub const INNER_CLOSE: &'static str = "</svg>\n";

/// The contents of a chart document, or nothing when it has none.
pub open spec fn chart_or_empty(chart: Seq<char>) -> Seq<char> {
    match chart_contents(chart) {
        Some(c) => c,
        None => Seq::empty(),
    }
}

/// The full overview: loads, the history chart, and memory and page-file sizes.
pub open spec fn full_svg(snapshot: MonitorSnapshot, chart: Seq<char>) -> Seq<char> {
    PLAIN_OPEN@ + text_path_spec("CPU"@, 2900, 10, 8, "#20e3ff"@) + text_path_spec(
        "GPU"@,
        8800,
        10,
        8,
        "#ff4fd8"@,
    ) + text_path_spec("RAM"@, 14700, 10, 8, "#facc15"@) + text_path_spec(
        percent_text(Some(snapshot.cpu)),
        2900,
        23,
        11,
        VALUE_COLOR@,
    ) + text_path_spec(percent_text(snapshot.gpu), 8800, 22, 11, VALUE_COLOR@) + text_path_spec(
        percent_text(Some(snapshot.memory)),
        14700,
        23,
        11,
        VALUE_COLOR@,
    ) + FULL_CHART_OPEN@ + chart_or_empty(chart) + INNER_CLOSE@ + text_path_spec(
        "RAM "@ + gibibytes_spec(saturating_sub(snapshot.memory_total_mib, snapshot.memory_available_mib))
            + " / "@ + gibibytes_spec(snapshot.memory_total_mib) + " GB"@,
        8800,
        83,
        7,
        "#dbeafe"@,
    ) + text_path_spec(
        "FREE "@ + gibibytes_spec(snapshot.memory_available_mib) + " GB  LOAD "@ + decimal(
            snapshot.memory as nat,
        ) + "%"@,
        8800,
        94,
        7,
        "#cbd5e1"@,
    ) + text_path_spec(
        "PAGE "@ + gibibytes_spec(saturating_sub(snapshot.pagefile_total_mib, snapshot.pagefile_available_mib))
            + " / "@ + gibibytes_spec(snapshot.pagefile_total_mib) + " GB"@,
        8800,
        105,
        7,
        "#94a3b8"@,
    ) + CLOSE@
}

fn chart_text(chart: &str) -> (r: String)
    requires
        chart_cuttable(chart@),
    ensures
        r@ == chart_or_empty(chart@),
{
    match chart_fragment(chart) {
        Some(f) => f,
        None => String::new(),
    }
}

/// The full overview image; `chart` is the drawn history chart document.
pub fn full_image(snapshot: &MonitorSnapshot, chart: &str) -> (uri: String)
    requires
        chart_cuttable(chart@),
    ensures
        uri@ == uri_of(full_svg(*snapshot, chart@)),
{
    let mut cpu = String::new();
    push_percent(&mut cpu, Some(snapshot.cpu));
    let mut gpu = String::new();
    push_percent(&mut gpu, snapshot.gpu);
    let mut memory = String::new();
    push_percent(&mut memory, Some(snapshot.memory));
    let mut ram = String::new();
    push_str(&mut ram, "RAM ");
    push_str(&mut ram, gibibytes(snapshot.memory_used_mib()).as_str());
    push_str(&mut ram, " / ");
    push_str(&mut ram, gibibytes(snapshot.memory_total_mib).as_str());
    push_str(&mut ram, " GB");
    let mut free = String::new();
    push_str(&mut free, "FREE ");
    push_str(&mut free, gibibytes(snapshot.memory_available_mib).as_str());
    push_str(&mut free, " GB  LOAD ");
    push_u64(&mut free, snapshot.memory as u64);
    push_str(&mut free, "%");
    let mut page = String::new();
    push_str(&mut page, "PAGE ");
    push_str(&mut page, gibibytes(snapshot.pagefile_used_mib()).as_str());
    push_str(&mut page, " / ");
    push_str(&mut page, gibibytes(snapshot.pagefile_total_mib).as_str());
    push_str(&mut page, " GB");
    let fragment = chart_text(chart);
    let mut svg = String::new();
    push_str(&mut svg, PLAIN_OPEN);
    push_str(&mut svg, text_path("CPU", 2900, 10, 8, "#20e3ff").as_str());
    push_str(&mut svg, text_path("GPU", 8800, 10, 8, "#ff4fd8").as_str());
    push_str(&mut svg, text_path("RAM", 14700, 10, 8, "#facc15").as_str());
    push_str(&mut svg, text_path(cpu.as_str(), 2900, 23, 11, VALUE_COLOR).as_str());
    push_str(&mut svg, text_path(gpu.as_str(), 8800, 22, 11, VALUE_COLOR).as_str());
    push_str(&mut svg, text_path(memory.as_str(), 14700, 23, 11, VALUE_COLOR).as_str());
    push_str(&mut svg, FULL_CHART_OPEN);
    push_str(&mut svg, fragment.as_str());
    push_str(&mut svg, INNER_CLOSE);
    push_str(&mut svg, text_path(ram.as_str(), 8800, 83, 7, "#dbeafe").as_str());
    push_str(&mut svg, text_path(free.as_str(), 8800, 94, 7, "#cbd5e1").as_str());
    push_str(&mut svg, text_path(page.as_str(), 8800, 105, 7, "#94a3b8").as_str());
    push_str(&mut svg, CLOSE);
    data_uri(svg.as_str())
}

/// One metric, compact: its title and reading, large.
pub open spec fn single_compact_svg(snapshot: MonitorSnapshot, metric: DisplayMetric) -> Seq<char> {
    CRISP_OPEN@ + text_path_spec(metric.label_spec(), 8800, 34, 16, metric.color_spec())
        + text_path_spec(metric.formatted_value_spec(snapshot), 8800, 82, 40, VALUE_COLOR@) + CLOSE@
}

/// The compact image of one metric.
pub fn single_compact_image(snapshot: &MonitorSnapshot, metric: DisplayMetric) -> (uri: String)
    ensures
        uri@ == uri_of(single_compact_svg(*snapshot, metric)),
{
    let color = metric.color();
    let value = metric.formatted_value(snapshot);
    let mut svg = String::new();
    push_str(&mut svg, CRISP_OPEN);
    push_str(&mut svg, text_path(metric.label(), 8800, 34, 16, color).as_str());
    push_str(&mut svg, text_path(value.as_str(), 8800, 82, 40, VALUE_COLOR).as_str());
    push_str(&mut svg, CLOSE);
    data_uri(svg.as_str())
}

/// The first `n` of fourteen segments of the one-metric bar.
pub open spec fn wide_bars(active: nat, color: Seq<char>, n: nat) -> Seq<char>
    decreases n,
{
    if n == 0 {
        Seq::empty()
    } else {
        let i = (n - 1) as nat;
        wide_bars(active, color, i) + "<rect x=\""@ + decimal(8 + i * 12)
            + "\" y=\"88\" width=\"9\" height=\"16\" fill=\""@ + (if i < active {
            color
        } else {
            IDLE_SEGMENT@
        }) + "\"/>"@
    }
}

/// The reading used for the bar, at most 100.
pub open spec fn capped(value: Option<u8>) -> Option<u8> {
    match value {
        Some(v) => Some(if v > 100 { 100u8 } else { v }),
        None => None,
    }
}

/// One metric, normal: title, reading and a fourteen-segment bar.
pub open spec fn single_normal_svg(snapshot: MonitorSnapshot, metric: DisplayMetric) -> Seq<char> {
    let color = metric.color_spec();
    CRISP_OPEN@ + text_path_spec(metric.label_spec(), 8800, 29, 16, color) + text_path_spec(
        metric.formatted_value_spec(snapshot),
        8800,
        73,
        34,
        VALUE_COLOR@,
    ) + wide_bars(active_segments(capped(metric.value_spec(snapshot)), 14), color, 14) + CLOSE@
}

/// The normal image of one metric.
pub fn single_normal_image(snapshot: &MonitorSnapshot, metric: DisplayMetric) -> (uri: String)
    ensures
        uri@ == uri_of(single_normal_svg(*snapshot, metric)),
{
    let color = metric.color();
    let raw = metric.value(snapshot);
    let active: u64 = match raw {
        Some(v) => ((if v > 100 { 100u64 } else { v as u64 }) * 14 + 99) / 100,
        None => 0,
    };
    let value = metric.formatted_value(snapshot);
    let mut svg = String::new();
    push_str(&mut svg, CRISP_OPEN);
    push_str(&mut svg, text_path(metric.label(), 8800, 29, 16, color).as_str());
    push_str(&mut svg, text_path(value.as_str(), 8800, 73, 34, VALUE_COLOR).as_str());
    let ghost head = svg@;
    let mut index: u64 = 0;
    while index < 14
        invariant
            index <= 14,
            svg@ == head + wide_bars(active as nat, color@, index as nat),
        decreases 14 - index,
    {
        push_str(&mut svg, "<rect x=\"");
        push_u64(&mut svg, 8 + index * 12);
        push_str(&mut svg, "\" y=\"88\" width=\"9\" height=\"16\" fill=\"");
        if index < active {
            push_str(&mut svg, color);
        } else {
            push_str(&mut svg, IDLE_SEGMENT);
        }
        push_str(&mut svg, "\"/>");
        index = index + 1;
    }
    push_str(&mut svg, CLOSE);
    data_uri(svg.as_str())
}

pub const METRIC_CHART_OPEN: &'static str = "\n<svg x=\"4\" y=\"42\" width=\"168\" height=\"64\" viewBox=\"0 0 168 64\">";
pub const METRIC_CHART_CLOSE: &'static str = "</svg>\n</svg>";

/// One metric, full: short title, reading and its history chart.
pub open spec fn single_full_svg(snapshot: MonitorSnapshot, metric: DisplayMetric, chart: Seq<char>) -> Seq<char> {
    PLAIN_OPEN@ + text_path_spec(metric.short_label_spec(), 3800, 22, 11, metric.color_spec())
        + text_path_spec(metric.formatted_value_spec(snapshot), 12600, 25, 22, VALUE_COLOR@)
        + METRIC_CHART_OPEN@ + chart_or_empty(chart) + METRIC_CHART_CLOSE@
}

/// The full image of one metric; `chart` is the drawn history chart of that metric.
pub fn single_full_image(snapshot: &MonitorSnapshot, metric: DisplayMetric, chart: &str) -> (uri: String)
    requires
        chart_cuttable(chart@),
    ensures
        uri@ == uri_of(single_full_svg(*snapshot, metric, chart@)),
{
    let color = metric.color();
    let value = metric.formatted_value(snapshot);
    let fragment = chart_text(chart);
    let mut svg = String::new();
    push_str(&mut svg, PLAIN_OPEN);
    push_str(&mut svg, text_path(metric.short_label(), 3800, 22, 11, color).as_str());
    push_str(&mut svg, text_path(value.as_str(), 12600, 25, 22, VALUE_COLOR).as_str());
    push_str(&mut svg, METRIC_CHART_OPEN);
    push_str(&mut svg, fragment.as_str());
    push_str(&mut svg, METRIC_CHART_CLOSE);
    data_uri(svg.as_str())
}

/// The image for a sample in a dial's layout.
pub open spec fn monitor_svg(snapshot: MonitorSnapshot, settings: MonitorSettings, chart: Seq<char>) -> Seq<char> {
    if settings.metric == DisplayMetric::Overview {
        match settings.mode {
            DisplayMode::Compact => compact_svg(snapshot),
            DisplayMode::Normal => medium_svg(snapshot),
            DisplayMode::Full => full_svg(snapshot, chart),
        }
    } else {
        match settings.mode {
            DisplayMode::Compact => single_compact_svg(snapshot, settings.metric),
            DisplayMode::Normal => single_normal_svg(snapshot, settings.metric),
            DisplayMode::Full => single_full_svg(snapshot, settings.metric, chart),
        }
    }
}

/// The dial image of a sample in the dial's layout; `chart` is the history chart the
/// full layouts embed (all three loads for the overview, the one metric otherwise).
pub fn monitor_image(snapshot: &MonitorSnapshot, settings: MonitorSettings, chart: &str) -> (uri: String)
    requires
        chart_cuttable(chart@),
    ensures
        uri@ == uri_of(monitor_svg(*snapshot, settings, chart@)),
{
    match settings.metric {
        DisplayMetric::Overview => match settings.mode {
            DisplayMode::Compact => compact_image(snapshot),
            DisplayMode::Normal => medium_image(snapshot),
            DisplayMode::Full => full_image(snapshot, chart),
        },
        _ => match settings.mode {
            DisplayMode::Compact => single_compact_image(snapshot, settings.metric),
            DisplayMode::Normal => single_normal_image(snapshot, settings.metric),
            DisplayMode::Full => single_full_image(snapshot, settings.metric, chart),
        },
    }
}

pub open spec fn loading_svg() -> Seq<char> {
    CRISP_OPEN@ + text_path_spec("SYSTEM"@, 8800, 49, 17, "#20e3ff"@) + text_path_spec(
        "LOADING..."@,
        8800,
        72,
        10,
        "#a7b0c0"@,
    ) + CLOSE@
}

/// The image shown before the first sample.
pub fn loading_image() -> (uri: String)
    ensures
        uri@ == uri_of(loading_svg()),
{
    let mut svg = String::new();
    push_str(&mut svg, CRISP_OPEN);
    push_str(&mut svg, text_path("SYSTEM", 8800, 49, 17, "#20e3ff").as_str());
    push_str(&mut svg, text_path("LOADING...", 8800, 72, 10, "#a7b0c0").as_str());
    push_str(&mut svg, CLOSE);
    data_uri(svg.as_str())
}

/// The dial image of a sample in a dial's layout with the chart drawn from `history`, or
/// nothing when the drawn chart document cannot be cut.
pub open spec fn history_image_spec(snapshot: MonitorSnapshot, settings: MonitorSettings, history: Seq<HistoryPoint>) -> Option<Seq<char>> {
    let chart = history_chart_spec(history, settings);
    if chart_cuttable(chart) {
        Some(uri_of(monitor_svg(snapshot, settings, chart)))
    } else {
        None
    }
}

/// The dial image of a sample in the dial's layout, its full layouts embedding the chart
/// drawn from the sample history. `None` when the drawn chart document ends before its
/// first tag, so that no chart can be cut from it.
pub fn history_image(snapshot: &MonitorSnapshot, settings: MonitorSettings, history: &VecDeque<HistoryPoint>) -> (r: Option<String>)
    requires
        history@.len() <= HISTORY_LENGTH,
    ensures
        opt_view(r) == history_image_spec(*snapshot, settings, history@),
{
    let chart = history_chart(history, settings);
    if can_cut_chart(chart.as_str()) {
        Some(monitor_image(snapshot, settings, chart.as_str()))
    } else {
        None
    }
}

/// What a dial shows when it appears: the last rendered state in its layout, or the
/// loading image before any sample.
pub open spec fn appearance_spec(settings: MonitorSettings, state: Option<RenderState>) -> Option<Seq<char>> {
    match state {
        Some(s) => history_image_spec(s.snapshot, settings, s.history@),
        None => Some(uri_of(loading_svg())),
    }
}

/// The image a dial shows when it appears: the last rendered sample in its layout, or
/// the loading image before any sample (`None` as for `history_image`).
pub fn appearance_image(settings: MonitorSettings, state: Option<&RenderState>) -> (r: Option<String>)
    requires
        state matches Some(s) ==> s.history@.len() <= HISTORY_LENGTH,
    ensures
        opt_view(r) == appearance_spec(
            settings,
            match state {
                Some(s) => Some(*s),
                None => None,
            },
        ),
{
    match state {
        Some(s) => history_image(&s.snapshot, settings, &s.history),
        None => Some(loading_image()),
    }
}

/// A dial that appears after a render shows what that render showed for its layout: the
/// image of the last sample with the chart of the last history; before any render it
/// shows the loading image.
pub proof fn lemma_appearance_reuses_state(settings: MonitorSettings, state: RenderState)
    ensures
        appearance_spec(settings, Some(state)) == history_image_spec(state.snapshot, settings, state.history@),
        appearance_spec(settings, None) == Some(uri_of(loading_svg())),
{
}

/// The layouts of the dials, by context.
pub struct DialSettings {
    pub entries: Vec<(String, MonitorSettings)>,
}

/// Forgets a dial's layout and stops showing it. With the last dial the sampling worker is
/// released and returned, and the caller must stop it.
pub fn disappear<W: LiveWorker>(settings: &mut DialSettings, live: &mut LiveAction<W>, context: &str) -> (to_stop: Option<W>)
    requires
        old(live).wf(),
    ensures
        forall|i: int| 0 <= i < final(settings).entries@.len() ==> #[trigger] final(settings).entries@[i].0@ != context@,
        forall|i: int| 0 <= i < old(settings).entries@.len() && old(settings).entries@[i].0@ != context@
            ==> final(settings).entries@.contains(#[trigger] old(settings).entries@[i]),
        final(live).wf(),
        final(live).subscribed().to_set() == old(live).subscribed().to_set().remove(context@),
        final(live).subscribed().len() == 0 ==> !final(live).has_worker(),
        final(live).subscribed().len() > 0 ==> final(live).worker_spec() == old(live).worker_spec(),
        to_stop == (if final(live).subscribed().len() == 0 {
            old(live).worker_spec()
        } else {
            None
        }),
{
    let key = chars_of(context);
    let mut kept: Vec<(String, MonitorSettings)> = Vec::new();
    let ghost old_entries = settings.entries@;
    let mut i: usize = 0;
    let n = settings.entries.len();
    while i < n
        invariant
            i <= n == settings.entries@.len(),
            settings.entries@ == old_entries,
            key@ == context@,
            forall|j: int| 0 <= j < kept@.len() ==> #[trigger] kept@[j].0@ != context@,
            forall|j: int| 0 <= j < i && old_entries[j].0@ != context@ ==> kept@.contains(#[trigger] old_entries[j]),
        decreases n - i,
    {
        let name = chars_of(settings.entries[i].0.as_str());
        if !eq_chars(&name, &key) {
            let entry = (settings.entries[i].0.clone(), settings.entries[i].1);
            let ghost prev = kept@;
            kept.push(entry);
            proof {
                assert(kept@[kept@.len() - 1] == old_entries[i as int]);
                assert forall|j: int| 0 <= j < i + 1 && old_entries[j].0@ != context@ implies kept@.contains(#[trigger] old_entries[j]) by {
                    if j < i {
                        let k = choose|k: int| 0 <= k < prev.len() && prev[k] == old_entries[j];
                        assert(kept@[k] == prev[k]);
                    } else {
                        assert(kept@[kept@.len() - 1] == old_entries[j]);
                    }
                }
            }
        }
        i = i + 1;
    }
    settings.entries = kept;
    live.unsubscribe(context)
}

/// The layout of the dial on `context`: the first recorded for it.
pub open spec fn layout_of(entries: Seq<(String, MonitorSettings)>, context: Seq<char>) -> Option<MonitorSettings>
    decreases entries.len(),
{
    if entries.len() == 0 {
        None
    } else if entries[0].0@ == context {
        Some(entries[0].1)
    } else {
        layout_of(entries.drop_first(), context)
    }
}

proof fn lemma_layout_update(e: Seq<(String, MonitorSettings)>, i: int, s: MonitorSettings, other: Seq<char>)
    requires
        0 <= i < e.len(),
        forall|j: int| 0 <= j < i ==> (#[trigger] e[j]).0@ != e[i].0@,
    ensures
        layout_of(e.update(i, (e[i].0, s)), other) == if other == e[i].0@ {
            Some(s)
        } else {
            layout_of(e, other)
        },
    decreases e.len(),
{
    let u = e.update(i, (e[i].0, s));
    if i == 0 {
        assert(u.drop_first() == e.drop_first());
    } else {
        assert(e[0].0@ != e[i].0@);
        assert(u.drop_first() == e.drop_first().update(i - 1, (e[i].0, s)));
        assert(e.drop_first()[i - 1] == e[i]);
        assert forall|j: int| 0 <= j < i - 1 implies (#[trigger] e.drop_first()[j]).0@ != e.drop_first()[i - 1].0@ by {
            assert(e.drop_first()[j] == e[j + 1]);
        }
        lemma_layout_update(e.drop_first(), i - 1, s, other);
    }
}

proof fn lemma_layout_push(e: Seq<(String, MonitorSettings)>, x: (String, MonitorSettings), other: Seq<char>)
    ensures
        layout_of(e.push(x), other) == match layout_of(e, other) {
            Some(v) => Some(v),
            None => if x.0@ == other {
                Some(x.1)
            } else {
                None
            },
        },
    decreases e.len(),
{
    if e.len() > 0 {
        assert(e.push(x).drop_first() == e.drop_first().push(x));
        lemma_layout_push(e.drop_first(), x, other);
    } else {
        assert(e.push(x).drop_first() == e);
    }
}

impl DialSettings {
    /// No dials.
    pub fn new() -> (r: Self)
        ensures
            forall|c: Seq<char>| layout_of(r.entries@, c) is None,
    {
        DialSettings { entries: Vec::new() }
    }

    /// The layout of the dial on `context`; the default layout for a dial not recorded.
    pub fn get(&self, context: &str) -> (r: MonitorSettings)
        ensures
            r == match layout_of(self.entries@, context@) {
                Some(s) => s,
                None => MonitorSettings { mode: DisplayMode::Normal, metric: DisplayMetric::Overview },
            },
    {
        let c = chars_of(context);
        let mut i: usize = 0;
        assert(self.entries@.skip(0) == self.entries@);
        while i < self.entries.len()
            invariant
                i <= self.entries@.len(),
                c@ == context@,
                layout_of(self.entries@, context@) == layout_of(self.entries@.skip(i as int), context@),
            decreases self.entries@.len() - i,
        {
            let ghost rest = self.entries@.skip(i as int);
            assert(rest[0] == self.entries@[i as int]);
            if eq_chars(&chars_of(self.entries[i].0.as_str()), &c) {
                return self.entries[i].1;
            }
            assert(rest.drop_first() == self.entries@.skip(i + 1));
            i = i + 1;
        }
        MonitorSettings { mode: DisplayMode::Normal, metric: DisplayMetric::Overview }
    }

    /// Records `layout` as the layout of the dial on `context`; the other dials keep theirs.
    pub fn set(&mut self, context: String, layout: MonitorSettings)
        ensures
            layout_of(final(self).entries@, context@) == Some(layout),
            forall|c: Seq<char>| c != context@ ==> layout_of(final(self).entries@, c) == layout_of(old(self).entries@, c),
    {
        let c = chars_of(context.as_str());
        let mut i: usize = 0;
        while i < self.entries.len()
            invariant
                i <= self.entries@.len(),
                self.entries@ == old(self).entries@,
                c@ == context@,
                forall|j: int| 0 <= j < i ==> self.entries@[j].0@ != context@,
            decreases self.entries@.len() - i,
        {
            if eq_chars(&chars_of(self.entries[i].0.as_str()), &c) {
                let ghost e = self.entries@;
                self.entries[i].1 = layout;
                proof {
                    assert(self.entries@ == e.update(i as int, (e[i as int].0, layout)));
                    assert forall|c2: Seq<char>| c2 != context@ implies layout_of(self.entries@, c2) == layout_of(e, c2) by {
                        lemma_layout_update(e, i as int, layout, c2);
                    }
                    lemma_layout_update(e, i as int, layout, context@);
                }
                return;
            }
            i = i + 1;
        }
        let ghost e = self.entries@;
        proof {
            assert(layout_of(e, context@) is None) by {
                lemma_layout_absent(e, context@);
            }
        }
        self.entries.push((context, layout));
        proof {
            lemma_layout_push(e, (context, layout), context@);
            assert forall|c2: Seq<char>| c2 != context@ implies layout_of(self.entries@, c2) == layout_of(e, c2) by {
                lemma_layout_push(e, (context, layout), c2);
            }
        }
    }
}

proof fn lemma_layout_absent(e: Seq<(String, MonitorSettings)>, c: Seq<char>)
    requires
        forall|j: int| 0 <= j < e.len() ==> (#[trigger] e[j]).0@ != c,
    ensures
        layout_of(e, c) is None,
    decreases e.len(),
{
    if e.len() > 0 {
        assert forall|j: int| 0 <= j < e.drop_first().len() implies (#[trigger] e.drop_first()[j]).0@ != c by {
            assert(e.drop_first()[j] == e[j + 1]);
        }
        lemma_layout_absent(e.drop_first(), c);
    }
}

/// Processor times since boot, in 100-nanosecond units: idle, kernel (which includes
/// idle) and user.
#[derive(Clone, Copy)]
pub struct CpuTimes {
    pub idle: u64,
    pub kernel: u64,
    pub user: u64,
}

/// `a - b`, or 0 when `b` is larger.
pub open spec fn minus(a: u64, b: u64) -> int {
    if a >= b {
        a - b
    } else {
        0
    }
}

/// `v` capped at `u64::MAX`.
pub open spec fn saturated(v: int) -> int {
    if v > u64::MAX {
        u64::MAX as int
    } else {
        v
    }
}

/// The processor load between two readings, in percent: the busy share of the kernel and
/// user time that passed (0 when none passed), at most 100.
pub open spec fn cpu_load_spec(previous: CpuTimes, current: CpuTimes) -> int {
    let idle = minus(current.idle, previous.idle);
    let total = saturated(minus(current.kernel, previous.kernel) + minus(current.user, previous.user));
    let busy = if total >= idle {
        total - idle
    } else {
        0
    };
    if total == 0 {
        0
    } else {
        let load = saturated(busy * 100) / total;
        if load > 100 {
            100
        } else {
            load
        }
    }
}

/// The processor load between two readings (see `cpu_load_spec`).
pub fn cpu_load(previous: &CpuTimes, current: &CpuTimes) -> (r: u8)
    ensures
        r as int == cpu_load_spec(*previous, *current),
{
    let idle = current.idle.saturating_sub(previous.idle);
    let kernel = current.kernel.saturating_sub(previous.kernel);
    let user = current.user.saturating_sub(previous.user);
    let total = kernel.saturating_add(user);
    let busy = total.saturating_sub(idle);
    let scaled = if busy > u64::MAX / 100 { u64::MAX } else { busy * 100 };
    if total == 0 {
        return 0;
    }
    let load = scaled / total;
    if load > 100 {
        100
    } else {
        load as u8
    }
}

/// The memory figures the system reports: the load in percent and sizes in bytes.
#[derive(Clone, Copy)]
pub struct MemoryStatus {
    pub load: u32,
    pub total_phys: u64,
    pub avail_phys: u64,
    pub total_page_file: u64,
    pub avail_page_file: u64,
}

/// One mebibyte in bytes.
pub const MIB: u64 = 1024 * 1024;

/// A sample from raw readings: the processor load since the previous reading, the memory
/// load (at most 100) and sizes in whole mebibytes (all zero when the memory could not be
/// read), and the GPU load and temperatures as measured.
pub fn sample(
    previous: &CpuTimes,
    current: &CpuTimes,
    memory: Option<MemoryStatus>,
    gpu: Option<u8>,
    temperatures: (Option<u8>, Option<u8>),
) -> (r: MonitorSnapshot)
    ensures
        r.cpu as int == cpu_load_spec(*previous, *current),
        r.gpu == gpu,
        r.cpu_temperature == temperatures.0,
        r.gpu_temperature == temperatures.1,
        match memory {
            Some(m) => {
                &&& r.memory as int == (if m.load > 100 { 100 } else { m.load as int })
                &&& r.memory_total_mib == m.total_phys / MIB
                &&& r.memory_available_mib == m.avail_phys / MIB
                &&& r.pagefile_total_mib == m.total_page_file / MIB
                &&& r.pagefile_available_mib == m.avail_page_file / MIB
            },
            None => {
                &&& r.memory == 0
                &&& r.memory_total_mib == 0
                &&& r.memory_available_mib == 0
                &&& r.pagefile_total_mib == 0
                &&& r.pagefile_available_mib == 0
            },
        },
{
    let cpu = cpu_load(previous, current);
    match memory {
        Some(m) => MonitorSnapshot {
            cpu,
            gpu,
            cpu_temperature: temperatures.0,
            gpu_temperature: temperatures.1,
            memory: if m.load > 100 { 100 } else { m.load as u8 },
            memory_total_mib: m.total_phys / MIB,
            memory_available_mib: m.avail_phys / MIB,
            pagefile_total_mib: m.total_page_file / MIB,
            pagefile_available_mib: m.avail_page_file / MIB,
        },
        None => MonitorSnapshot {
            cpu,
            gpu,
            cpu_temperature: temperatures.0,
            gpu_temperature: temperatures.1,
            memory: 0,
            memory_total_mib: 0,
            memory_available_mib: 0,
            pagefile_total_mib: 0,
            pagefile_available_mib: 0,
        },
    }
}

/// How often the temperature sensors are queried, in milliseconds.
pub const TEMPERATURE_REFRESH_MS: u64 = 5000;

/// The temperature readings and the query that refreshes them in the background: the
/// last readings, whether a query runs, and when the last one started (milliseconds on
/// a monotonic clock).
pub struct TemperatureSchedule {
    pub last_launch: Option<u64>,
    pub cpu: Option<u8>,
    pub gpu: Option<u8>,
    pub in_flight: bool,
}

impl TemperatureSchedule {
    /// No readings and no query yet.
    pub fn new() -> (r: Self)
        ensures
            r.last_launch is None,
            r.cpu is None,
            r.gpu is None,
            !r.in_flight,
    {
        TemperatureSchedule { last_launch: None, cpu: None, gpu: None, in_flight: false }
    }

    /// Takes the readings of a finished query.
    pub fn receive(&mut self, cpu: Option<u8>, gpu: Option<u8>)
        ensures
            *final(self) == (TemperatureSchedule { cpu, gpu, in_flight: false, ..*old(self) }),
    {
        self.cpu = cpu;
        self.gpu = gpu;
        self.in_flight = false;
    }

    /// Whether a query should start at `now`: none runs, and none started within the
    /// refresh interval. A due query is recorded as started at `now`.
    pub fn launch_due(&mut self, now: u64) -> (due: bool)
        ensures
            due == (!old(self).in_flight && match old(self).last_launch {
                None => true,
                Some(last) => now >= last && now - last >= TEMPERATURE_REFRESH_MS,
            }),
            due ==> *final(self) == (TemperatureSchedule { last_launch: Some(now), ..*old(self) }),
            !due ==> *final(self) == *old(self),
    {
        let refresh_due = match self.last_launch {
            None => true,
            Some(last) => now >= last && now - last >= TEMPERATURE_REFRESH_MS,
        };
        if refresh_due && !self.in_flight {
            self.last_launch = Some(now);
            true
        } else {
            false
        }
    }

    /// Records whether the query that was due could be started.
    pub fn launched(&mut self, started: bool)
        ensures
            *final(self) == (TemperatureSchedule { in_flight: started, ..*old(self) }),
    {
        self.in_flight = started;
    }
}

/// Reads the machine's load. Only Windows has the counters; here every reading is zero or
/// absent.
pub struct Sampler;

impl Sampler {
    pub fn new() -> (r: Self) {
        Sampler
    }

    /// The current readings: none available.
    pub fn snapshot(&mut self) -> (r: MonitorSnapshot)
        ensures
            r == (MonitorSnapshot {
                cpu: 0,
                gpu: None,
                cpu_temperature: None,
                gpu_temperature: None,
                memory: 0,
                memory_total_mib: 0,
                memory_available_mib: 0,
                pagefile_total_mib: 0,
                pagefile_available_mib: 0,
            }),
    {
        MonitorSnapshot {
            cpu: 0,
            gpu: None,
            cpu_temperature: None,
            gpu_temperature: None,
            memory: 0,
            memory_total_mib: 0,
            memory_available_mib: 0,
            pagefile_total_mib: 0,
            pagefile_available_mib: 0,
        }
    }
}


// ---------------------------------------------------------------------------
// GPU engine counters
// ---------------------------------------------------------------------------

/// `_luid_` starts at position `i` of `name`.
pub open spec fn luid_at(name: Seq<char>, i: int) -> bool {
    0 <= i && i + 6 <= name.len() && name.subrange(i, i + 6) == "_luid_"@
}

/// The engine key of a counter instance name read from position `i` on: the name from
/// its first `_luid_` at or after `i`, or the whole name when there is none.
pub open spec fn engine_key_from(name: Seq<char>, i: nat) -> Seq<char>
    decreases name.len() - i,
{
    if i + 6 > name.len() {
        name
    } else if luid_at(name, i as int) {
        name.skip(i as int)
    } else {
        engine_key_from(name, i + 1)
    }
}

/// The engine a GPU-engine counter instance belongs to: its name from the first `_luid_`
/// on (the adapter and engine part, shared by all processes), or the whole name. The
/// loads of instances with one key are added up, and the busiest engine is the GPU load.
pub fn engine_key(name: &str) -> (r: String)
    ensures
        r@ == engine_key_from(name@, 0),
{
    proof {
        reveal_strlit("_luid_");
    }
    let s = chars_of(name);
    let pattern = chars_of("_luid_");
    let n = s.len();
    let mut i: usize = 0;
    while n >= 6 && i <= n - 6
        invariant
            n == s@.len(),
            s@ == name@,
            pattern@ == "_luid_"@,
            pattern@.len() == 6,
            i <= n,
            engine_key_from(s@, 0) == engine_key_from(s@, i as nat),
        decreases n - i,
    {
        let mut j: usize = 0;
        while j < 6 && s[i + j] == pattern[j]
            invariant
                i + 6 <= n == s@.len(),
                pattern@.len() == 6,
                j <= 6,
                forall|m: int| 0 <= m < j ==> s@[i + m] == pattern@[m],
            decreases 6 - j,
        {
            j = j + 1;
        }
        if j == 6 {
            assert(s@.subrange(i as int, i + 6) =~= pattern@);
            let mut out: Vec<char> = Vec::new();
            let mut k: usize = i;
            while k < n
                invariant
                    i <= k <= n == s@.len(),
                    out@ == s@.subrange(i as int, k as int),
                decreases n - k,
            {
                out.push(s[k]);
                k = k + 1;
                assert(out@ =~= s@.subrange(i as int, k as int));
            }
            assert(out@ =~= s@.skip(i as int));
            assert(luid_at(s@, i as int));
            assert(engine_key_from(s@, i as nat) == s@.skip(i as int));
            return string_of(&out);
        }
        assert(s@.subrange(i as int, i + 6)[j as int] != pattern@[j as int]);
        assert(!luid_at(s@, i as int));
        i = i + 1;
    }
    assert(engine_key_from(s@, i as nat) == s@);
    string_of(&s)
}

} // verus!

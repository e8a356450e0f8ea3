//! The widget actions and the data their sources yield.

use vstd::prelude::*;
use crate::settings::{SettingsValue, setting_u64, setting_u64_opt};
use crate::text::{chars_of, eq_chars_str};

verus! {

broadcast use vstd::string::group_string_axioms;

/// Prefix of every widget action's UUID.
pub const PREFIX: &'static str = "com.dvgamerr.widgets.";

/// The kinds of widget action.
#[derive(Clone, Copy, Debug, PartialEq, Eq, Hash, Structural)]
pub enum ActionKind {
    Gold,
    Currency,
    Stock,
    AirQuality,
    PowerShell,
    Weather,
    WorkHours,
}

/// The part of an action UUID after `PREFIX` that names each kind.
pub open spec fn uuid_suffix(kind: ActionKind) -> Seq<char> {
    match kind {
        ActionKind::Gold => "gold-price"@,
        ActionKind::Currency => "currency-rate"@,
        ActionKind::Stock => "stock-price"@,
        ActionKind::AirQuality => "air-quality"@,
        ActionKind::PowerShell => "powershell"@,
        ActionKind::Weather => "weather"@,
        ActionKind::WorkHours => "work-hours"@,
    }
}

/// The kind whose suffix is `s`, trying the kinds in declaration order.
pub open spec fn kind_of_suffix(s: Seq<char>) -> Option<ActionKind> {
    if s == uuid_suffix(ActionKind::Gold) {
        Some(ActionKind::Gold)
    } else if s == uuid_suffix(ActionKind::Currency) {
        Some(ActionKind::Currency)
    } else if s == uuid_suffix(ActionKind::Stock) {
        Some(ActionKind::Stock)
    } else if s == uuid_suffix(ActionKind::AirQuality) {
        Some(ActionKind::AirQuality)
    } else if s == uuid_suffix(ActionKind::PowerShell) {
        Some(ActionKind::PowerShell)
    } else if s == uuid_suffix(ActionKind::Weather) {
        Some(ActionKind::Weather)
    } else if s == uuid_suffix(ActionKind::WorkHours) {
        Some(ActionKind::WorkHours)
    } else {
        None
    }
}

/// The kind an action UUID names: `PREFIX` followed by one of the suffixes.
pub open spec fn kind_of_uuid(uuid: Seq<char>) -> Option<ActionKind> {
    if uuid.len() >= PREFIX@.len() && uuid.take(PREFIX@.len() as int) == PREFIX@ {
        kind_of_suffix(uuid.skip(PREFIX@.len() as int))
    } else {
        None
    }
}

/// Whether the action's image is fed by the scheduler.
pub open spec fn is_scheduled(kind: ActionKind) -> bool {
    kind != ActionKind::PowerShell
}

pub open spec fn clamp(v: int, lo: int, hi: int) -> int {
    if v < lo {
        lo
    } else if v > hi {
        hi
    } else {
        v
    }
}

/// The refresh interval of an action in milliseconds: the `interval` setting clamped
/// per kind (the gold widget counts it in seconds), or a fixed period.
pub open spec fn refresh_interval_ms(kind: ActionKind, settings: SettingsValue) -> int {
    let setting = |fallback: u64| match setting_u64_opt(settings, "interval"@) {
        Some(v) => v as int,
        None => fallback as int,
    };
    match kind {
        ActionKind::Gold => clamp(setting(15), 3, 3_600) * 1_000,
        ActionKind::Currency | ActionKind::Stock => clamp(setting(10_000), 5_000, 3_600_000),
        ActionKind::AirQuality => clamp(setting(3_600_000), 60_000, 86_400_000),
        ActionKind::Weather => clamp(setting(1_800_000), 300_000, 86_400_000),
        ActionKind::WorkHours => 60_000,
        ActionKind::PowerShell => 86_400_000,
    }
}

fn clamp_u64(v: u64, lo: u64, hi: u64) -> (r: u64)
    requires
        lo <= hi,
    ensures
        r as int == clamp(v as int, lo as int, hi as int),
{
    if v < lo {
        lo
    } else if v > hi {
        hi
    } else {
        v
    }
}

impl ActionKind {
    /// The kind an action UUID names.
    pub fn from_uuid(uuid: &str) -> (r: Option<Self>)
        ensures
            r == kind_of_uuid(uuid@),
    {
        let u = chars_of(uuid);
        let p = chars_of(PREFIX);
        if u.len() < p.len() {
            return None;
        }
        let mut i: usize = 0;
        while i < p.len()
            invariant
                i <= p.len() <= u.len(),
                u@ == uuid@,
                p@ == PREFIX@,
                forall|j: int| 0 <= j < i ==> u@[j] == p@[j],
            decreases p.len() - i,
        {
            if u[i] != p[i] {
                proof {
                    assert(u@.take(p@.len() as int)[i as int] != p@[i as int]);
                }
                return None;
            }
            i = i + 1;
        }
        assert(u@.take(p@.len() as int) =~= p@);
        let mut rest: Vec<char> = Vec::new();
        let mut k: usize = p.len();
        while k < u.len()
            invariant
                p.len() <= k <= u.len(),
                rest@ == u@.subrange(p@.len() as int, k as int),
            decreases u.len() - k,
        {
            rest.push(u[k]);
            assert(u@.subrange(p@.len() as int, k + 1) == u@.subrange(p@.len() as int, k as int).push(u@[k as int]));
            k = k + 1;
        }
        assert(rest@ == u@.skip(p@.len() as int));
        if eq_chars_str(&rest, "gold-price") {
            Some(ActionKind::Gold)
        } else if eq_chars_str(&rest, "currency-rate") {
            Some(ActionKind::Currency)
        } else if eq_chars_str(&rest, "stock-price") {
            Some(ActionKind::Stock)
        } else if eq_chars_str(&rest, "air-quality") {
            Some(ActionKind::AirQuality)
        } else if eq_chars_str(&rest, "powershell") {
            Some(ActionKind::PowerShell)
        } else if eq_chars_str(&rest, "weather") {
            Some(ActionKind::Weather)
        } else if eq_chars_str(&rest, "work-hours") {
            Some(ActionKind::WorkHours)
        } else {
            None
        }
    }

    /// Whether the action's image is fed by the scheduler (all but the PowerShell action).
    pub fn scheduled(self) -> (r: bool)
        ensures
            r == is_scheduled(self),
    {
        match self {
            ActionKind::PowerShell => false,
            _ => true,
        }
    }

    /// How often the action's source is polled, in milliseconds.
    pub fn refresh_interval(self, settings: &SettingsValue) -> (ms: u64)
        ensures
            ms as int == refresh_interval_ms(self, *settings),
            ms >= 3_000,
            ms <= 86_400_000,
    {
        match self {
            ActionKind::Gold => clamp_u64(setting_u64(settings, "interval", 15), 3, 3_600) * 1_000,
            ActionKind::Currency | ActionKind::Stock => clamp_u64(
                setting_u64(settings, "interval", 10_000),
                5_000,
                3_600_000,
            ),
            ActionKind::AirQuality => clamp_u64(
                setting_u64(settings, "interval", 3_600_000),
                60_000,
                86_400_000,
            ),
            ActionKind::Weather => clamp_u64(
                setting_u64(settings, "interval", 1_800_000),
                300_000,
                86_400_000,
            ),
            ActionKind::WorkHours => 60_000,
            ActionKind::PowerShell => 86_400_000,
        }
    }
}

/// The US AQI reading of a location, with the level the source names (may be empty).
pub struct AirQualityData {
    pub aqi: u16,
    pub level: String,
}

/// Current weather at a location.
pub struct WeatherData {
    pub temperature: i16,
    pub apparent: i16,
    pub code: u8,
    pub is_day: bool,
    pub precipitation: u8,
}

} // verus!

//! The widget scheduler's state: one entry per visible widget, a shared cache of the
//! last data of each distinct request, and the decisions the scheduler makes when a
//! widget appears, changes settings, is due, or gets its refresh result.
//!
//! Times are milliseconds on the scheduler's monotonic clock. Fetching data and drawing
//! the data frames are the plugin's work: `finish` says which frame to show and `show`
//! records the image the plugin drew for it.

use vstd::prelude::*;
use crate::fetch::{currency_codes, Failure, DEFAULT_AQI_URL};
use crate::keyed::{
    has_key, keyed_map, lemma_keyed_get, lemma_keyed_push, lemma_keyed_remove,
    lemma_keyed_update, lemma_keyed_map_values, lemma_keyed_empty, unique_keys,
};
use crate::live::LiveWorker;
use crate::model::{refresh_interval_ms, ActionKind};
use crate::render::{error, error_content, offline, offline_content, shell_uri, MUTED, RED};
use crate::settings::{setting_string, setting_string_spec, SettingsValue};
use crate::text::{chars_of, eq_chars, eq_chars_str, owned, push_str, to_uppercase, uppercase};

verus! {

broadcast use vstd::string::group_string_axioms;

/// Most requests whose last data the cache keeps.
pub const MAX_CACHE_ENTRIES: usize = 128;
/// Longest wait between retries of an unreachable source, in milliseconds.
pub const RETRY_CEILING_MS: u64 = 300_000;

/// The scheduler's record of one visible widget.
pub struct Entry<D> {
    pub kind: ActionKind,
    pub settings: SettingsValue,
    /// What identifies the widget's request (see the plugin's request keys).
    pub key: String,
    /// Bumped on every settings change, so results of older requests are dropped.
    pub generation: u64,
    pub next_due: u64,
    pub busy: bool,
    /// Consecutive refreshes that could not reach the source.
    pub unreachable_since: u32,
    pub data: Option<D>,
    pub last_image: Option<String>,
}

/// The last data of one request.
pub struct CacheEntry<D> {
    pub kind: ActionKind,
    pub key: String,
    pub data: D,
    pub last_used: u64,
}

/// The widgets due for one request: every due widget with the same kind and request key.
pub struct JobGroup {
    pub kind: ActionKind,
    pub key: String,
    /// The widgets' contexts with the generation each had when the job was collected.
    pub targets: Vec<(String, u64)>,
}

/// What a widget shows after a refresh result.
pub enum Frame {
    /// Nothing changes.
    Keep,
    /// The widget's new data, drawn by the plugin.
    Widget,
    /// An image drawn here (offline or error).
    Image(String),
}

/// All widgets, the data cache and the scheduler's worker.
pub struct Runtime<D, W> {
    entries: Vec<(String, Entry<D>)>,
    cache: Vec<CacheEntry<D>>,
    cache_clock: u64,
    worker: Option<W>,
}

pub open spec fn entry_key<D>() -> spec_fn((String, Entry<D>)) -> Seq<char> {
    |e: (String, Entry<D>)| e.0@
}

pub open spec fn entry_val<D>() -> spec_fn((String, Entry<D>)) -> Entry<D> {
    |e: (String, Entry<D>)| e.1
}

pub open spec fn cache_key<D>() -> spec_fn(CacheEntry<D>) -> (ActionKind, Seq<char>) {
    |e: CacheEntry<D>| (e.kind, e.key@)
}

pub open spec fn cache_val<D>() -> spec_fn(CacheEntry<D>) -> (D, u64) {
    |e: CacheEntry<D>| (e.data, e.last_used)
}

/// `a + 1` wrapping at `u64::MAX`.
pub open spec fn tick(a: u64) -> u64 {
    if a == u64::MAX {
        0
    } else {
        (a + 1) as u64
    }
}

/// How the cache changes when `v` is written under `k` at clock `clock`: `k` maps to
/// `(v, clock)`; the other keys keep their data; when `k` is new and the cache is full
/// the least recently used key leaves, and no other.
pub open spec fn cache_written<D>(
    old: Map<(ActionKind, Seq<char>), (D, u64)>,
    old_size: nat,
    new: Map<(ActionKind, Seq<char>), (D, u64)>,
    k: (ActionKind, Seq<char>),
    v: D,
    clock: u64,
) -> bool {
    &&& new.dom().contains(k)
    &&& new[k] == (v, clock)
    &&& forall|k2: (ActionKind, Seq<char>)|
        k2 != k && #[trigger] new.dom().contains(k2) ==> old.dom().contains(k2) && new[k2] == old[k2]
    &&& if !old.dom().contains(k) && old_size >= MAX_CACHE_ENTRIES {
        exists|gone: (ActionKind, Seq<char>)|
            {
                &&& old.dom().contains(gone)
                &&& !new.dom().contains(gone)
                &&& forall|k2: (ActionKind, Seq<char>)| #[trigger]
                    old.dom().contains(k2) ==> old[gone].1 <= old[k2].1
                &&& forall|k2: (ActionKind, Seq<char>)|
                    k2 != gone && #[trigger] old.dom().contains(k2) ==> new.dom().contains(k2)
            }
    } else {
        forall|k2: (ActionKind, Seq<char>)| #[trigger] old.dom().contains(k2) ==> new.dom().contains(k2)
    }
}

/// The delay before retrying an unreachable source after `attempts` failed tries: the
/// refresh interval times the attempts (at most eight), capped at five minutes, but never
/// shorter than the interval itself.
pub open spec fn retry_delay_spec(kind: ActionKind, settings: SettingsValue, attempts: u32) -> int {
    let interval = refresh_interval_ms(kind, settings);
    let a = if attempts > 8 {
        8
    } else {
        attempts as int
    };
    let grown = interval * a;
    let capped = if grown > RETRY_CEILING_MS {
        RETRY_CEILING_MS as int
    } else {
        grown
    };
    if interval > capped {
        interval
    } else {
        capped
    }
}

/// The delay before retrying an unreachable source after `attempts` failed tries, so a
/// machine that lost its connection is not dialled every tick, without ever retrying
/// more often than the widget's configured interval.
pub fn retry_delay(kind: ActionKind, settings: &SettingsValue, attempts: u32) -> (ms: u64)
    ensures
        ms as int == retry_delay_spec(kind, *settings, attempts),
        ms <= 86_400_000,
{
    let interval = kind.refresh_interval(settings);
    let a: u64 = if attempts > 8 { 8 } else { attempts as u64 };
    proof {
        assert(interval * a <= 86_400_000 * 8) by (nonlinear_arith) requires interval <= 86_400_000, a <= 8;
    }
    let grown = interval * a;
    let capped = if grown > RETRY_CEILING_MS { RETRY_CEILING_MS } else { grown };
    if interval > capped {
        interval
    } else {
        capped
    }
}

/// Retries never come more often than the refresh interval, never later than the larger
/// of the interval and five minutes, and wait no less after more failures.
pub proof fn lemma_retry_delay_bounds(kind: ActionKind, settings: SettingsValue, a: u32, b: u32)
    requires
        a <= b,
    ensures
        refresh_interval_ms(kind, settings) <= retry_delay_spec(kind, settings, a),
        retry_delay_spec(kind, settings, a) <= if refresh_interval_ms(kind, settings) > RETRY_CEILING_MS {
            refresh_interval_ms(kind, settings)
        } else {
            RETRY_CEILING_MS as int
        },
        retry_delay_spec(kind, settings, a) <= retry_delay_spec(kind, settings, b),
{
    let i = refresh_interval_ms(kind, settings);
    assert(i >= 0);
    let aa = if a > 8 { 8 } else { a as int };
    let bb = if b > 8 { 8 } else { b as int };
    assert(i * aa <= i * bb) by (nonlinear_arith) requires 0 <= aa <= bb, i >= 0;
}

impl<D, W: LiveWorker> Runtime<D, W> {
    /// The widgets by context.
    pub closed spec fn entries_view(&self) -> Map<Seq<char>, Entry<D>> {
        keyed_map(self.entries@, entry_key(), entry_val())
    }

    /// The cached data and its last use, by kind and request key.
    pub closed spec fn cache_view(&self) -> Map<(ActionKind, Seq<char>), (D, u64)> {
        keyed_map(self.cache@, cache_key(), cache_val())
    }

    /// Number of requests in the cache.
    pub closed spec fn cache_size(&self) -> nat {
        self.cache@.len()
    }

    /// The cache's use counter.
    pub closed spec fn clock(&self) -> u64 {
        self.cache_clock
    }

    /// The scheduler's worker.
    pub closed spec fn worker_spec(&self) -> Option<W> {
        self.worker
    }

    /// Each context and each request occurs once, and the cache holds at most
    /// `MAX_CACHE_ENTRIES` requests.
    pub closed spec fn wf(&self) -> bool {
        &&& unique_keys(self.entries@, entry_key())
        &&& unique_keys(self.cache@, cache_key())
        &&& self.cache@.len() <= MAX_CACHE_ENTRIES
    }

    /// No widgets, an empty cache, no worker.
    pub fn new() -> (r: Self)
        ensures
            r.wf(),
            r.entries_view() == Map::<Seq<char>, Entry<D>>::empty(),
            r.cache_view() == Map::<(ActionKind, Seq<char>), (D, u64)>::empty(),
            r.cache_size() == 0,
            r.clock() == 0,
            r.worker_spec() is None,
    {
        let r = Runtime { entries: Vec::new(), cache: Vec::new(), cache_clock: 0, worker: None };
        assert(r.entries_view() =~= Map::<Seq<char>, Entry<D>>::empty());
        assert(r.cache_view() =~= Map::<(ActionKind, Seq<char>), (D, u64)>::empty());
        r
    }

    /// The cache holds at most `MAX_CACHE_ENTRIES` requests.
    pub proof fn lemma_cache_bounded(&self)
        requires
            self.wf(),
        ensures
            self.cache_size() <= MAX_CACHE_ENTRIES,
    {
    }

    fn find_entry(&self, context: &Vec<char>) -> (r: Option<usize>)
        requires
            self.wf(),
        ensures
            match r {
                Some(i) => i < self.entries@.len() && self.entries@[i as int].0@ == context@,
                None => !self.entries_view().dom().contains(context@),
            },
    {
        let mut i: usize = 0;
        while i < self.entries.len()
            invariant
                i <= self.entries@.len(),
                forall|j: int| 0 <= j < i ==> self.entries@[j].0@ != context@,
            decreases self.entries@.len() - i,
        {
            let name = chars_of(self.entries[i].0.as_str());
            if eq_chars(&name, context) {
                return Some(i);
            }
            i = i + 1;
        }
        proof {
            if has_key(self.entries@, entry_key(), context@) {
                let j = choose|j: int| 0 <= j < self.entries@.len() && entry_key()(self.entries@[j]) == context@;
                assert(self.entries@[j].0@ == context@);
            }
        }
        None
    }

    fn find_cached(&self, kind: ActionKind, key: &Vec<char>) -> (r: Option<usize>)
        requires
            self.wf(),
        ensures
            match r {
                Some(i) => i < self.cache@.len() && cache_key()(self.cache@[i as int]) == (kind, key@),
                None => !self.cache_view().dom().contains((kind, key@)),
            },
    {
        let mut i: usize = 0;
        while i < self.cache.len()
            invariant
                i <= self.cache@.len(),
                forall|j: int| 0 <= j < i ==> cache_key()(self.cache@[j]) != (kind, key@),
            decreases self.cache@.len() - i,
        {
            if self.cache[i].kind == kind {
                let name = chars_of(self.cache[i].key.as_str());
                if eq_chars(&name, key) {
                    return Some(i);
                }
            }
            i = i + 1;
        }
        proof {
            if has_key(self.cache@, cache_key(), (kind, key@)) {
                let j = choose|j: int| 0 <= j < self.cache@.len() && cache_key()(self.cache@[j]) == (kind, key@);
            }
        }
        None
    }

    /// The widget shown on `context`.
    pub fn entry(&self, context: &str) -> (r: Option<&Entry<D>>)
        requires
            self.wf(),
        ensures
            match r {
                Some(e) => self.entries_view().dom().contains(context@) && self.entries_view()[context@] == *e,
                None => !self.entries_view().dom().contains(context@),
            },
    {
        match self.find_entry(&chars_of(context)) {
            Some(i) => {
                proof {
                    lemma_keyed_get(self.entries@, entry_key(), entry_val(), i as int);
                }
                Some(&self.entries[i].1)
            },
            None => None,
        }
    }
}

impl<D: Clone, W: LiveWorker> Runtime<D, W> {
    /// The cached data of a request, marking it used: the use counter advances (wrapping)
    /// and the request's last use becomes the new count.
    pub fn cached_data(&mut self, kind: ActionKind, key: &str) -> (r: Option<D>)
        requires
            old(self).wf(),
        ensures
            final(self).wf(),
            final(self).clock() == tick(old(self).clock()),
            final(self).entries_view() == old(self).entries_view(),
            final(self).worker_spec() == old(self).worker_spec(),
            final(self).cache_size() == old(self).cache_size(),
            match r {
                Some(d) => {
                    &&& old(self).cache_view().dom().contains((kind, key@))
                    &&& cloned(old(self).cache_view()[(kind, key@)].0, d)
                    &&& final(self).cache_view() == old(self).cache_view().insert(
                        (kind, key@),
                        (old(self).cache_view()[(kind, key@)].0, final(self).clock()),
                    )
                },
                None => {
                    &&& !old(self).cache_view().dom().contains((kind, key@))
                    &&& final(self).cache_view() == old(self).cache_view()
                },
            },
    {
        self.cache_clock = if self.cache_clock == u64::MAX { 0 } else { self.cache_clock + 1 };
        let k = chars_of(key);
        match self.find_cached(kind, &k) {
            Some(i) => {
                let ghost before = self.cache@;
                proof {
                    lemma_keyed_get(before, cache_key(), cache_val(), i as int);
                    lemma_keyed_remove(before, cache_key(), cache_val(), i as int);
                }
                let mut e = self.cache.remove(i);
                e.last_used = self.cache_clock;
                let d = e.data.clone();
                proof {
                    let removed = before.remove(i as int);
                    assert(!has_key(removed, cache_key(), (kind, key@))) by {
                        if has_key(removed, cache_key(), (kind, key@)) {
                            let j = choose|j: int| 0 <= j < removed.len() && cache_key()(removed[j]) == (kind, key@);
                            let j0 = if j < i { j } else { j + 1 };
                            assert(removed[j] == before[j0]);
                        }
                    }
                    lemma_keyed_push(removed, cache_key(), cache_val(), e);
                    assert(keyed_map(removed, cache_key(), cache_val()).insert((kind, key@), (e.data, e.last_used))
                        =~= keyed_map(before, cache_key(), cache_val()).insert((kind, key@), (e.data, e.last_used)));
                }
                self.cache.push(e);
                Some(d)
            },
            None => None,
        }
    }

    fn oldest(&self) -> (j: usize)
        requires
            self.cache@.len() > 0,
        ensures
            j < self.cache@.len(),
            forall|m: int| 0 <= m < self.cache@.len() ==> self.cache@[j as int].last_used <= #[trigger] self.cache@[m].last_used,
    {
        let mut j: usize = 0;
        let mut m: usize = 1;
        while m < self.cache.len()
            invariant
                1 <= m <= self.cache@.len(),
                j < m,
                forall|x: int| 0 <= x < m ==> self.cache@[j as int].last_used <= #[trigger] self.cache@[x].last_used,
            decreases self.cache@.len() - m,
        {
            if self.cache[m].last_used < self.cache[j].last_used {
                j = m;
            }
            m = m + 1;
        }
        j
    }

    /// Stores the data of a request, marking it used; a new request pushes out the least
    /// recently used one when the cache is full.
    pub fn cache_data(&mut self, kind: ActionKind, key: String, data: D)
        requires
            old(self).wf(),
        ensures
            final(self).wf(),
            final(self).clock() == tick(old(self).clock()),
            final(self).entries_view() == old(self).entries_view(),
            final(self).worker_spec() == old(self).worker_spec(),
            cache_written(
                old(self).cache_view(),
                old(self).cache_size(),
                final(self).cache_view(),
                (kind, key@),
                data,
                final(self).clock(),
            ),
    {
        self.cache_clock = if self.cache_clock == u64::MAX { 0 } else { self.cache_clock + 1 };
        let k = chars_of(key.as_str());
        let ghost kk = (kind, key@);
        let ghost before = self.cache@;
        let ghost old_map = keyed_map(before, cache_key(), cache_val());
        let e = CacheEntry { kind, key, data, last_used: self.cache_clock };
        match self.find_cached(kind, &k) {
            Some(i) => {
                proof {
                    lemma_keyed_update(before, cache_key(), cache_val(), i as int, e);
                }
                self.cache.set(i, e);
                proof {
                    let new_map = keyed_map(self.cache@, cache_key(), cache_val());
                    assert(new_map == old_map.insert(kk, (data, self.cache_clock)));
                    assert(old_map.dom().contains(kk));
                }
            },
            None => {
                if self.cache.len() >= MAX_CACHE_ENTRIES {
                    let j = self.oldest();
                    let ghost gone = cache_key()(before[j as int]);
                    proof {
                        lemma_keyed_remove(before, cache_key(), cache_val(), j as int);
                        lemma_keyed_get(before, cache_key(), cache_val(), j as int);
                        assert forall|k2: (ActionKind, Seq<char>)| #[trigger] old_map.dom().contains(k2) implies old_map[gone].1 <= old_map[k2].1 by {
                            let m = choose|m: int| 0 <= m < before.len() && cache_key()(before[m]) == k2;
                            lemma_keyed_get(before, cache_key(), cache_val(), m);
                        }
                    }
                    self.cache.remove(j);
                    let ghost mid = self.cache@;
                    proof {
                        assert(!has_key(mid, cache_key(), kk)) by {
                            if has_key(mid, cache_key(), kk) {
                                let x = choose|x: int| 0 <= x < mid.len() && cache_key()(mid[x]) == kk;
                                let x0 = if x < j { x } else { x + 1 };
                                assert(mid[x] == before[x0]);
                                assert(has_key(before, cache_key(), kk));
                            }
                        }
                        lemma_keyed_push(mid, cache_key(), cache_val(), e);
                    }
                    self.cache.push(e);
                    proof {
                        let new_map = keyed_map(self.cache@, cache_key(), cache_val());
                        assert(new_map == old_map.remove(gone).insert(kk, (data, self.cache_clock)));
                        assert(gone != kk);
                        assert(!new_map.dom().contains(gone));
                    }
                } else {
                    proof {
                        lemma_keyed_push(before, cache_key(), cache_val(), e);
                    }
                    self.cache.push(e);
                }
            },
        }
    }
}

/// Whether a widget is due at `now`: not already refreshing, and its time has come.
pub open spec fn due<D>(e: Entry<D>, now: u64) -> bool {
    !e.busy && e.next_due <= now
}

/// A widget after a job collection at `now`: a due widget becomes busy and is next due
/// one refresh interval later.
pub open spec fn collected<D>(e: Entry<D>, now: u64) -> Entry<D> {
    if due(e, now) {
        Entry { busy: true, next_due: (now + refresh_interval_ms(e.kind, e.settings)) as u64, ..e }
    } else {
        e
    }
}

/// The request of a widget: its kind and request key.
pub open spec fn request_of<D>(e: Entry<D>) -> (ActionKind, Seq<char>) {
    (e.kind, e.key@)
}

/// The request of a job group.
pub open spec fn group_request(g: JobGroup) -> (ActionKind, Seq<char>) {
    (g.kind, g.key@)
}

/// A group's targets as contexts and generations.
pub open spec fn group_targets(g: JobGroup) -> Seq<(Seq<char>, u64)> {
    g.targets@.map_values(|t: (String, u64)| (t.0@, t.1))
}

/// The jobs collected from `entries` at `now`: every due widget is a target of the group
/// of its request, and of no other group; every target is a due widget with the
/// generation it had; no two groups have the same request, and no group lists a target
/// twice.
pub open spec fn jobs_of<D>(entries: Map<Seq<char>, Entry<D>>, now: u64, groups: Seq<JobGroup>) -> bool {
    &&& forall|c: Seq<char>|
        #![trigger entries.dom().contains(c)]
        entries.dom().contains(c) && due(entries[c], now) ==> exists|g: int|
            0 <= g < groups.len() && group_request(groups[g]) == request_of(entries[c])
                && #[trigger] group_targets(groups[g]).contains((c, entries[c].generation))
    &&& forall|g: int, t: int|
        0 <= g < groups.len() && 0 <= t < group_targets(groups[g]).len() ==> {
            let target = #[trigger] group_targets(groups[g])[t];
            &&& entries.dom().contains(target.0)
            &&& due(entries[target.0], now)
            &&& entries[target.0].generation == target.1
            &&& request_of(entries[target.0]) == group_request(groups[g])
        }
    &&& forall|g: int, h: int|
        0 <= g < groups.len() && 0 <= h < groups.len() && g != h ==> group_request(#[trigger] groups[g])
            != group_request(#[trigger] groups[h])
    &&& forall|g: int| 0 <= g < groups.len() ==> #[trigger] groups[g].targets@.len() > 0
    &&& forall|g: int| 0 <= g < groups.len() ==> group_targets(#[trigger] groups[g]).no_duplicates()
}

/// Widgets with the same request that are due together are refreshed by one job: they
/// are targets of the same group.
pub proof fn lemma_identical_requests_share_one_group<D>(
    entries: Map<Seq<char>, Entry<D>>,
    now: u64,
    groups: Seq<JobGroup>,
    a: Seq<char>,
    b: Seq<char>,
)
    requires
        jobs_of(entries, now, groups),
        entries.dom().contains(a),
        entries.dom().contains(b),
        due(entries[a], now),
        due(entries[b], now),
        request_of(entries[a]) == request_of(entries[b]),
    ensures
        exists|g: int|
            0 <= g < groups.len() && #[trigger] group_targets(groups[g]).contains((a, entries[a].generation))
                && group_targets(groups[g]).contains((b, entries[b].generation)),
{
    let ga = choose|g: int| 0 <= g < groups.len() && group_request(groups[g]) == request_of(entries[a])
        && #[trigger] group_targets(groups[g]).contains((a, entries[a].generation));
    let gb = choose|g: int| 0 <= g < groups.len() && group_request(groups[g]) == request_of(entries[b])
        && #[trigger] group_targets(groups[g]).contains((b, entries[b].generation));
    assert(ga == gb);
}

/// A widget is listed once in all of the collected jobs: two targets naming the same
/// widget are the same target of the same group.
pub proof fn lemma_due_widget_targeted_once<D>(
    entries: Map<Seq<char>, Entry<D>>,
    now: u64,
    groups: Seq<JobGroup>,
    g1: int,
    t1: int,
    g2: int,
    t2: int,
)
    requires
        jobs_of(entries, now, groups),
        0 <= g1 < groups.len(),
        0 <= t1 < group_targets(groups[g1]).len(),
        0 <= g2 < groups.len(),
        0 <= t2 < group_targets(groups[g2]).len(),
        group_targets(groups[g1])[t1].0 == group_targets(groups[g2])[t2].0,
    ensures
        g1 == g2,
        t1 == t2,
{
    let a = group_targets(groups[g1])[t1];
    let b = group_targets(groups[g2])[t2];
    assert(request_of(entries[a.0]) == group_request(groups[g1]));
    assert(request_of(entries[b.0]) == group_request(groups[g2]));
    assert(g1 == g2);
    assert(a.1 == entries[a.0].generation);
    assert(b.1 == entries[b.0].generation);
    assert(group_targets(groups[g1]).no_duplicates());
}

impl<D, W: LiveWorker> Runtime<D, W> {
    /// Number of widgets.
    pub closed spec fn entry_count(&self) -> nat {
        self.entries@.len()
    }

    /// There are widgets exactly when some context has one.
    pub proof fn lemma_entry_count(&self)
        ensures
            (self.entry_count() == 0) == (self.entries_view().dom() =~= Set::<Seq<char>>::empty()),
    {
        lemma_keyed_empty(self.entries@, entry_key(), entry_val());
    }

    /// Whether the scheduler's worker has stopped on its own (as it reports it); never when
    /// there is none. The caller hands this to `appear`.
    pub fn worker_finished(&self) -> (r: bool)
        ensures
            self.worker_spec() is None ==> !r,
    {
        match &self.worker {
            Some(worker) => worker.is_finished(),
            None => false,
        }
    }

    /// Shows a widget on `context` with its first frame, replacing what was there, and
    /// says whether the scheduler's worker must be started: there is none, or it stopped
    /// (`finished`, from `worker_finished`).
    pub fn appear(
        &mut self,
        context: String,
        kind: ActionKind,
        settings: SettingsValue,
        key: String,
        data: Option<D>,
        image: String,
        now: u64,
        finished: bool,
    ) -> (start: bool)
        requires
            old(self).wf(),
        ensures
            final(self).wf(),
            final(self).entries_view() == old(self).entries_view().insert(
                context@,
                (Entry {
                    kind,
                    settings,
                    key,
                    generation: 0,
                    next_due: now,
                    busy: false,
                    unreachable_since: 0,
                    data,
                    last_image: Some(image),
                }),
            ),
            final(self).cache_view() == old(self).cache_view(),
            final(self).cache_size() == old(self).cache_size(),
            final(self).clock() == old(self).clock(),
            final(self).worker_spec() == old(self).worker_spec(),
            start == (old(self).worker_spec() is None || finished),
    {
        let c = chars_of(context.as_str());
        let entry = Entry {
            kind,
            settings,
            key,
            generation: 0,
            next_due: now,
            busy: false,
            unreachable_since: 0,
            data,
            last_image: Some(image),
        };
        let ghost before = self.entries@;
        match self.find_entry(&c) {
            Some(i) => {
                proof {
                    lemma_keyed_update(before, entry_key(), entry_val(), i as int, (context, entry));
                }
                self.entries.set(i, (context, entry));
            },
            None => {
                proof {
                    lemma_keyed_push(before, entry_key(), entry_val(), (context, entry));
                }
                self.entries.push((context, entry));
            },
        }
        self.worker.is_none() || finished
    }

    /// Makes `worker` the scheduler's worker.
    pub fn set_worker(&mut self, worker: W)
        requires
            old(self).wf(),
        ensures
            final(self).wf(),
            final(self).entries_view() == old(self).entries_view(),
            final(self).cache_view() == old(self).cache_view(),
            final(self).cache_size() == old(self).cache_size(),
            final(self).clock() == old(self).clock(),
            final(self).worker_spec() == Some(worker),
    {
        self.worker = Some(worker);
    }

    /// Forgets the widget on `context`. When no widget is left the worker is released and
    /// returned, and the caller must stop it; otherwise nothing is returned.
    pub fn disappear(&mut self, context: &str) -> (to_stop: Option<W>)
        requires
            old(self).wf(),
        ensures
            final(self).wf(),
            final(self).entries_view() == old(self).entries_view().remove(context@),
            final(self).cache_view() == old(self).cache_view(),
            final(self).cache_size() == old(self).cache_size(),
            final(self).clock() == old(self).clock(),
            final(self).entry_count() == 0 ==> final(self).worker_spec() is None,
            final(self).entry_count() > 0 ==> final(self).worker_spec() == old(self).worker_spec(),
            to_stop == (if final(self).entry_count() == 0 {
                old(self).worker_spec()
            } else {
                None
            }),
    {
        let c = chars_of(context);
        match self.find_entry(&c) {
            Some(i) => {
                proof {
                    lemma_keyed_remove(self.entries@, entry_key(), entry_val(), i as int);
                }
                self.entries.remove(i);
            },
            None => {
                assert(old(self).entries_view().remove(context@) =~= old(self).entries_view());
            },
        }
        if self.entries.len() == 0 {
            self.worker.take()
        } else {
            None
        }
    }

    /// Gives the widget on `context` new settings and request with the frame drawn for
    /// them; results of requests made before are then dropped. Returns the frame, or
    /// nothing when no widget is shown there.
    pub fn update(
        &mut self,
        context: &str,
        settings: SettingsValue,
        key: String,
        data: Option<D>,
        image: String,
        now: u64,
    ) -> (r: Option<String>)
        requires
            old(self).wf(),
        ensures
            final(self).wf(),
            final(self).cache_view() == old(self).cache_view(),
            final(self).cache_size() == old(self).cache_size(),
            final(self).clock() == old(self).clock(),
            final(self).worker_spec() == old(self).worker_spec(),
            match r {
                Some(shown) => {
                    let e = old(self).entries_view()[context@];
                    &&& old(self).entries_view().dom().contains(context@)
                    &&& shown@ == image@
                    &&& final(self).entries_view() == old(self).entries_view().insert(
                        context@,
                        (Entry {
                            settings,
                            key,
                            generation: tick(e.generation),
                            next_due: now,
                            unreachable_since: 0,
                            data,
                            last_image: Some(image),
                            ..e
                        }),
                    )
                },
                None => {
                    &&& !old(self).entries_view().dom().contains(context@)
                    &&& final(self).entries_view() == old(self).entries_view()
                },
            },
    {
        let c = chars_of(context);
        match self.find_entry(&c) {
            Some(i) => {
                proof {
                    lemma_keyed_get(self.entries@, entry_key(), entry_val(), i as int);
                }
                let ghost before = self.entries@;
                let shown = image.clone();
                let generation = self.entries[i].1.generation;
                self.entries[i].1.settings = settings;
                self.entries[i].1.key = key;
                self.entries[i].1.generation = if generation == u64::MAX { 0 } else { generation + 1 };
                self.entries[i].1.next_due = now;
                self.entries[i].1.unreachable_since = 0;
                self.entries[i].1.data = data;
                self.entries[i].1.last_image = Some(image);
                proof {
                    assert(self.entries@ == before.update(i as int, self.entries@[i as int]));
                    lemma_keyed_update(before, entry_key(), entry_val(), i as int, self.entries@[i as int]);
                }
                Some(shown)
            },
            None => None,
        }
    }

    /// Makes the widget on `context` due now and forgets its failed attempts.
    pub fn refresh(&mut self, context: &str, now: u64)
        requires
            old(self).wf(),
        ensures
            final(self).wf(),
            final(self).cache_view() == old(self).cache_view(),
            final(self).cache_size() == old(self).cache_size(),
            final(self).clock() == old(self).clock(),
            final(self).worker_spec() == old(self).worker_spec(),
            final(self).entries_view() == if old(self).entries_view().dom().contains(context@) {
                old(self).entries_view().insert(
                    context@,
                    (Entry { next_due: now, unreachable_since: 0, ..old(self).entries_view()[context@] }),
                )
            } else {
                old(self).entries_view()
            },
    {
        let c = chars_of(context);
        match self.find_entry(&c) {
            Some(i) => {
                proof {
                    lemma_keyed_get(self.entries@, entry_key(), entry_val(), i as int);
                }
                let ghost before = self.entries@;
                self.entries[i].1.next_due = now;
                self.entries[i].1.unreachable_since = 0;
                proof {
                    assert(self.entries@ == before.update(i as int, self.entries@[i as int]));
                    lemma_keyed_update(before, entry_key(), entry_val(), i as int, self.entries@[i as int]);
                }
            },
            None => {},
        }
    }
}

/// Every target of every group comes from a due widget among the first `k`, with the
/// group's request.
spec fn targets_from<D>(groups: Seq<JobGroup>, before: Seq<(String, Entry<D>)>, k: int, now: u64) -> bool {
    forall|g: int, t: int|
        0 <= g < groups.len() && 0 <= t < group_targets(groups[g]).len() ==> target_source(
            before,
            k,
            now,
            groups[g],
            #[trigger] group_targets(groups[g])[t],
        )
}

/// The target `tt` of group `g` is a due widget among the first `k`, with the group's
/// request.
spec fn target_source<D>(before: Seq<(String, Entry<D>)>, k: int, now: u64, g: JobGroup, tt: (Seq<char>, u64)) -> bool {
    exists|j: int|
        #![trigger before[j]]
        0 <= j < k && due(before[j].1, now) && (before[j].0@, before[j].1.generation) == tt && request_of(before[j].1)
            == group_request(g)
}

/// The widget `w` is a target of the group of its request.
spec fn in_its_group<D>(groups: Seq<JobGroup>, w: (String, Entry<D>)) -> bool {
    exists|g: int|
        0 <= g < groups.len() && group_request(groups[g]) == request_of(w.1)
            && #[trigger] group_targets(groups[g]).contains((w.0@, w.1.generation))
}

/// Every due widget among the first `k` is a target of the group of its request.
spec fn covered<D>(groups: Seq<JobGroup>, before: Seq<(String, Entry<D>)>, k: int, now: u64) -> bool {
    forall|j: int| 0 <= j < k && due(#[trigger] before[j].1, now) ==> in_its_group(groups, before[j])
}

/// No two groups share a request, none is empty, and none lists a target twice.
spec fn groups_wf(groups: Seq<JobGroup>) -> bool {
    &&& forall|g: int, h: int|
        0 <= g < groups.len() && 0 <= h < groups.len() && g != h ==> group_request(#[trigger] groups[g])
            != group_request(#[trigger] groups[h])
    &&& forall|g: int| 0 <= g < groups.len() ==> #[trigger] groups[g].targets@.len() > 0
    &&& forall|g: int| 0 <= g < groups.len() ==> group_targets(#[trigger] groups[g]).no_duplicates()
}

proof fn lemma_skip_widget<D>(groups: Seq<JobGroup>, before: Seq<(String, Entry<D>)>, k: int, now: u64)
    requires
        0 <= k < before.len(),
        !due(before[k].1, now),
        targets_from(groups, before, k, now),
        covered(groups, before, k, now),
    ensures
        targets_from(groups, before, k + 1, now),
        covered(groups, before, k + 1, now),
{
    assert forall|g: int, t: int|
        0 <= g < groups.len() && 0 <= t < group_targets(groups[g]).len() implies target_source(before, k + 1, now, groups[g], #[trigger] group_targets(groups[g])[t]) by {
        let tt = group_targets(groups[g])[t];
        let j = choose|j: int|
            0 <= j < k && due(before[j].1, now) && (before[j].0@, before[j].1.generation) == tt
                && request_of(before[j].1) == group_request(groups[g]);
    }
}

proof fn lemma_join_group<D>(
    old_groups: Seq<JobGroup>,
    groups: Seq<JobGroup>,
    g: int,
    before: Seq<(String, Entry<D>)>,
    k: int,
    now: u64,
)
    requires
        0 <= k < before.len(),
        due(before[k].1, now),
        0 <= g < old_groups.len(),
        groups.len() == old_groups.len(),
        forall|h: int| 0 <= h < groups.len() && h != g ==> groups[h] == old_groups[h],
        group_request(groups[g]) == group_request(old_groups[g]),
        group_request(old_groups[g]) == request_of(before[k].1),
        group_targets(groups[g]) == group_targets(old_groups[g]).push((before[k].0@, before[k].1.generation)),
        groups[g].targets@.len() > 0,
        groups_wf(old_groups),
        unique_keys(before, entry_key()),
        targets_from(old_groups, before, k, now),
        covered(old_groups, before, k, now),
    ensures
        groups_wf(groups),
        targets_from(groups, before, k + 1, now),
        covered(groups, before, k + 1, now),
{
    let tv = (before[k].0@, before[k].1.generation);
    let n = group_targets(old_groups[g]).len() as int;
    assert(group_targets(groups[g])[n] == tv);
    assert(!group_targets(old_groups[g]).contains(tv)) by {
        if group_targets(old_groups[g]).contains(tv) {
            let t = choose|t: int| 0 <= t < group_targets(old_groups[g]).len() && group_targets(old_groups[g])[t] == tv;
            let tt = group_targets(old_groups[g])[t];
            let j = choose|j: int|
                0 <= j < k && due(before[j].1, now) && (before[j].0@, before[j].1.generation) == tt
                    && request_of(before[j].1) == group_request(old_groups[g]);
            assert(entry_key()(before[j]) != entry_key()(before[k]));
        }
    }
    assert(group_targets(old_groups[g]).no_duplicates());
    assert(group_targets(groups[g]).no_duplicates()) by {
        let old_t = group_targets(old_groups[g]);
        let new_t = group_targets(groups[g]);
        assert forall|x: int, y: int| 0 <= x < new_t.len() && 0 <= y < new_t.len() && x != y implies new_t[x] != new_t[y] by {
            if x < n && y < n {
                assert(new_t[x] == old_t[x] && new_t[y] == old_t[y]);
            } else if x < n {
                assert(new_t[x] == old_t[x]);
                assert(old_t.contains(old_t[x]));
            } else {
                assert(new_t[y] == old_t[y]);
                assert(old_t.contains(old_t[y]));
            }
        }
    }
    assert forall|gg: int| 0 <= gg < groups.len() implies group_targets(#[trigger] groups[gg]).no_duplicates() by {
        if gg != g {
            assert(groups[gg] == old_groups[gg]);
        }
    }
    assert forall|gg: int, hh: int|
        0 <= gg < groups.len() && 0 <= hh < groups.len() && gg != hh implies group_request(#[trigger] groups[gg])
            != group_request(#[trigger] groups[hh]) by {
        assert(group_request(groups[gg]) == group_request(old_groups[gg]));
        assert(group_request(groups[hh]) == group_request(old_groups[hh]));
    }
    assert forall|gg: int| 0 <= gg < groups.len() implies #[trigger] groups[gg].targets@.len() > 0 by {
        if gg != g {
            assert(groups[gg] == old_groups[gg]);
        }
    }
    assert forall|gg: int, t: int|
        0 <= gg < groups.len() && 0 <= t < group_targets(groups[gg]).len() implies target_source(before, k + 1, now, groups[gg], #[trigger] group_targets(groups[gg])[t]) by {
        if gg == g && t == n {
            assert(group_targets(groups[gg])[t] == tv);
        } else {
            if gg != g {
                assert(groups[gg] == old_groups[gg]);
            }
            let tt = group_targets(old_groups[gg])[t];
            assert(group_targets(groups[gg])[t] == tt);
            let j = choose|j: int|
                0 <= j < k && due(before[j].1, now) && (before[j].0@, before[j].1.generation) == tt
                    && request_of(before[j].1) == group_request(old_groups[gg]);
        }
    }
    assert forall|j: int| 0 <= j < k + 1 && due(#[trigger] before[j].1, now) implies in_its_group(groups, before[j]) by {
        if j == k {
            assert(group_targets(groups[g]).contains(tv));
        } else {
            assert(in_its_group(old_groups, before[j]));
            let w = (before[j].0@, before[j].1.generation);
            let gg = choose|gg: int|
                0 <= gg < old_groups.len() && group_request(old_groups[gg]) == request_of(before[j].1)
                    && #[trigger] group_targets(old_groups[gg]).contains(w);
            let t = choose|t: int| 0 <= t < group_targets(old_groups[gg]).len() && group_targets(old_groups[gg])[t] == w;
            if gg != g {
                assert(groups[gg] == old_groups[gg]);
            }
            assert(group_targets(groups[gg])[t] == w);
            assert(group_targets(groups[gg]).contains(w));
        }
    }
}

proof fn lemma_new_group<D>(
    old_groups: Seq<JobGroup>,
    groups: Seq<JobGroup>,
    before: Seq<(String, Entry<D>)>,
    k: int,
    now: u64,
)
    requires
        0 <= k < before.len(),
        due(before[k].1, now),
        groups.len() == old_groups.len() + 1,
        forall|h: int| 0 <= h < old_groups.len() ==> groups[h] == old_groups[h],
        forall|h: int| 0 <= h < old_groups.len() ==> group_request(#[trigger] old_groups[h]) != request_of(before[k].1),
        group_request(groups[old_groups.len() as int]) == request_of(before[k].1),
        group_targets(groups[old_groups.len() as int]) == seq![(before[k].0@, before[k].1.generation)],
        groups[old_groups.len() as int].targets@.len() > 0,
        groups_wf(old_groups),
        targets_from(old_groups, before, k, now),
        covered(old_groups, before, k, now),
    ensures
        groups_wf(groups),
        targets_from(groups, before, k + 1, now),
        covered(groups, before, k + 1, now),
{
    let last = old_groups.len() as int;
    let tv = (before[k].0@, before[k].1.generation);
    assert(group_targets(groups[last])[0] == tv);
    assert forall|gg: int| 0 <= gg < groups.len() implies group_targets(#[trigger] groups[gg]).no_duplicates() by {
        if gg != last {
            assert(groups[gg] == old_groups[gg]);
        }
    }
    assert forall|gg: int, hh: int|
        0 <= gg < groups.len() && 0 <= hh < groups.len() && gg != hh implies group_request(#[trigger] groups[gg])
            != group_request(#[trigger] groups[hh]) by {
        if gg != last && hh != last {
            assert(groups[gg] == old_groups[gg]);
            assert(groups[hh] == old_groups[hh]);
        } else if gg == last {
            assert(groups[hh] == old_groups[hh]);
        } else {
            assert(groups[gg] == old_groups[gg]);
        }
    }
    assert forall|gg: int| 0 <= gg < groups.len() implies #[trigger] groups[gg].targets@.len() > 0 by {
        if gg != last {
            assert(groups[gg] == old_groups[gg]);
        }
    }
    assert forall|gg: int, t: int|
        0 <= gg < groups.len() && 0 <= t < group_targets(groups[gg]).len() implies target_source(before, k + 1, now, groups[gg], #[trigger] group_targets(groups[gg])[t]) by {
        if gg == last {
            assert(group_targets(groups[gg])[t] == tv);
        } else {
            assert(groups[gg] == old_groups[gg]);
            let tt = group_targets(old_groups[gg])[t];
            let j = choose|j: int|
                0 <= j < k && due(before[j].1, now) && (before[j].0@, before[j].1.generation) == tt
                    && request_of(before[j].1) == group_request(old_groups[gg]);
        }
    }
    assert forall|j: int| 0 <= j < k + 1 && due(#[trigger] before[j].1, now) implies in_its_group(groups, before[j]) by {
        if j == k {
            assert(group_targets(groups[last]).contains(tv));
        } else {
            assert(in_its_group(old_groups, before[j]));
            let w = (before[j].0@, before[j].1.generation);
            let gg = choose|gg: int|
                0 <= gg < old_groups.len() && group_request(old_groups[gg]) == request_of(before[j].1)
                    && #[trigger] group_targets(old_groups[gg]).contains(w);
            assert(groups[gg] == old_groups[gg]);
        }
    }
}

/// What the collection loop has found after looking at the first `n` widgets gives the
/// jobs of the whole map.
proof fn lemma_jobs_collected<D>(groups: Seq<JobGroup>, before: Seq<(String, Entry<D>)>, now: u64)
    requires
        unique_keys(before, entry_key()),
        groups_wf(groups),
        targets_from(groups, before, before.len() as int, now),
        covered(groups, before, before.len() as int, now),
    ensures
        jobs_of(keyed_map(before, entry_key(), entry_val()), now, groups),
{
    let m = keyed_map(before, entry_key(), entry_val());
    assert forall|c: Seq<char>| #![trigger m.dom().contains(c)]
        m.dom().contains(c) && due(m[c], now) implies exists|g: int|
            0 <= g < groups.len() && group_request(groups[g]) == request_of(m[c])
                && #[trigger] group_targets(groups[g]).contains((c, m[c].generation)) by {
        let j = choose|j: int| 0 <= j < before.len() && entry_key()(before[j]) == c;
        lemma_keyed_get(before, entry_key(), entry_val(), j);
        assert(due(before[j].1, now));
        assert(in_its_group(groups, before[j]));
    }
    assert forall|g: int, t: int|
        0 <= g < groups.len() && 0 <= t < group_targets(groups[g]).len() implies {
            let target = #[trigger] group_targets(groups[g])[t];
            &&& m.dom().contains(target.0)
            &&& due(m[target.0], now)
            &&& m[target.0].generation == target.1
            &&& request_of(m[target.0]) == group_request(groups[g])
        } by {
        let tt = group_targets(groups[g])[t];
        let j = choose|j: int|
            0 <= j < before.len() && due(before[j].1, now) && (before[j].0@, before[j].1.generation) == tt
                && request_of(before[j].1) == group_request(groups[g]);
        lemma_keyed_get(before, entry_key(), entry_val(), j);
    }
}

fn find_group(groups: &Vec<JobGroup>, kind: ActionKind, key: &Vec<char>) -> (r: Option<usize>)
    ensures
        match r {
            Some(g) => g < groups@.len() && group_request(groups@[g as int]) == (kind, key@),
            None => forall|g: int| 0 <= g < groups@.len() ==> group_request(#[trigger] groups@[g]) != (kind, key@),
        },
{
    let mut g: usize = 0;
    while g < groups.len()
        invariant
            g <= groups@.len(),
            forall|h: int| 0 <= h < g ==> group_request(#[trigger] groups@[h]) != (kind, key@),
        decreases groups@.len() - g,
    {
        if groups[g].kind == kind {
            let name = chars_of(groups[g].key.as_str());
            if eq_chars(&name, key) {
                return Some(g);
            }
        }
        g = g + 1;
    }
    None
}

impl<D, W: LiveWorker> Runtime<D, W> {
    /// Marks every due widget busy and schedules its next refresh one interval later, and
    /// groups the due widgets by request so each request is fetched once.
    pub fn collect_jobs(&mut self, now: u64) -> (groups: Vec<JobGroup>)
        requires
            old(self).wf(),
            now <= u64::MAX - 86_400_000,
        ensures
            final(self).wf(),
            final(self).entries_view() == old(self).entries_view().map_values(|e: Entry<D>| collected(e, now)),
            final(self).cache_view() == old(self).cache_view(),
            final(self).cache_size() == old(self).cache_size(),
            final(self).clock() == old(self).clock(),
            final(self).worker_spec() == old(self).worker_spec(),
            jobs_of(old(self).entries_view(), now, groups@),
    {
        let ghost before = self.entries@;
        let mut groups: Vec<JobGroup> = Vec::new();
        let n = self.entries.len();
        let mut i: usize = 0;
        while i < n
            invariant
                i <= n == before.len(),
                self.entries@.len() == n,
                before == old(self).entries@,
                self.cache == old(self).cache,
                self.cache_clock == old(self).cache_clock,
                self.worker == old(self).worker,
                unique_keys(before, entry_key()),
                now <= u64::MAX - 86_400_000,
                forall|j: int| 0 <= j < i ==> #[trigger] self.entries@[j] == (before[j].0, collected(before[j].1, now)),
                forall|j: int| i <= j < n ==> #[trigger] self.entries@[j] == before[j],
                groups_wf(groups@),
                targets_from(groups@, before, i as int, now),
                covered(groups@, before, i as int, now),
            decreases n - i,
        {
            let is_due = !self.entries[i].1.busy && self.entries[i].1.next_due <= now;
            if is_due {
                let interval = self.entries[i].1.kind.refresh_interval(&self.entries[i].1.settings);
                let ghost prev = self.entries@;
                self.entries[i].1.busy = true;
                self.entries[i].1.next_due = now + interval;
                assert(self.entries@ == prev.update(i as int, (before[i as int].0, collected(before[i as int].1, now))));
                let kind = self.entries[i].1.kind;
                let key = chars_of(self.entries[i].1.key.as_str());
                let target = (self.entries[i].0.clone(), self.entries[i].1.generation);
                let ghost old_groups = groups@;
                match find_group(&groups, kind, &key) {
                    Some(g) => {
                        let ghost old_targets = groups@[g as int].targets@;
                        groups[g].targets.push(target);
                        proof {
                            assert(groups@[g as int].targets@ == old_targets.push(target));
                            assert(group_targets(groups@[g as int]) =~= group_targets(old_groups[g as int]).push(
                                (before[i as int].0@, before[i as int].1.generation),
                            ));
                            lemma_join_group(old_groups, groups@, g as int, before, i as int, now);
                        }
                    },
                    None => {
                        let mut targets: Vec<(String, u64)> = Vec::new();
                        targets.push(target);
                        let group = JobGroup { kind, key: self.entries[i].1.key.clone(), targets };
                        groups.push(group);
                        proof {
                            let last = old_groups.len() as int;
                            assert(group_targets(groups@[last]) =~= seq![(before[i as int].0@, before[i as int].1.generation)]);
                            lemma_new_group(old_groups, groups@, before, i as int, now);
                        }
                    },
                }
            } else {
                proof {
                    lemma_skip_widget(groups@, before, i as int, now);
                }
            }
            i = i + 1;
        }
        proof {
            lemma_keyed_map_values(before, self.entries@, entry_key(), entry_val(), |e: Entry<D>| collected(e, now));
            lemma_jobs_collected(groups@, before, now);
        }
        groups
    }
}


/// Whether `last` is the image `img`.
pub open spec fn shows(last: Option<String>, img: Seq<char>) -> bool {
    last matches Some(s) && s@ == img
}

/// A widget after a refresh result of its current request, apart from the image it shows:
/// it is no longer busy; data resets the failed attempts and becomes the widget's data;
/// an unreachable source counts one more failed attempt (saturating) and retries after
/// `retry_delay`; any other failure resets the failed attempts.
pub open spec fn finished<D>(e: Entry<D>, result: Result<D, Failure>, now: u64) -> Entry<D> {
    match result {
        Ok(data) => Entry { busy: false, unreachable_since: 0, data: Some(data), ..e },
        Err(f) => if f.unreachable {
            let attempts = if e.unreachable_since == u32::MAX {
                u32::MAX
            } else {
                (e.unreachable_since + 1) as u32
            };
            Entry {
                busy: false,
                unreachable_since: attempts,
                next_due: (now + retry_delay_spec(e.kind, e.settings, attempts)) as u64,
                ..e
            }
        } else {
            Entry { busy: false, unreachable_since: 0, ..e }
        },
    }
}

/// The image drawn after a failed refresh: a widget that has data keeps its frame; one
/// that never had data says its source is offline, or shows the error.
pub open spec fn failure_image<D>(e: Entry<D>, f: Failure) -> Option<Seq<char>> {
    if e.data is Some {
        None
    } else if f.unreachable {
        Some(shell_uri(MUTED@, offline_content(e.kind)))
    } else {
        Some(shell_uri(RED@, error_content(f.message@)))
    }
}

impl<D: Clone, W: LiveWorker> Runtime<D, W> {
    /// Takes the refresh result of the request `context` had at `generation`.
    ///
    /// A widget that is gone is left alone. A result of an older request only ends the
    /// refresh and makes the widget due again. Data is cached under the widget's request
    /// and the widget's data frame is to be drawn (`Frame::Widget`). After a failure a
    /// widget with data keeps its frame; one without shows the offline or error image,
    /// unless it shows that image already.
    pub fn finish(&mut self, context: &str, generation: u64, result: Result<D, Failure>, now: u64) -> (frame: Frame)
        requires
            old(self).wf(),
            now <= u64::MAX - 86_400_000,
        ensures
            final(self).wf(),
            final(self).worker_spec() == old(self).worker_spec(),
            !old(self).entries_view().dom().contains(context@) ==> {
                &&& frame is Keep
                &&& final(self).entries_view() == old(self).entries_view()
                &&& final(self).cache_view() == old(self).cache_view()
                &&& final(self).cache_size() == old(self).cache_size()
                &&& final(self).clock() == old(self).clock()
            },
            old(self).entries_view().dom().contains(context@) && old(self).entries_view()[context@].generation
                != generation ==> {
                &&& frame is Keep
                &&& final(self).entries_view() == old(self).entries_view().insert(
                    context@,
                    (Entry { busy: false, next_due: now, ..old(self).entries_view()[context@] }),
                )
                &&& final(self).cache_view() == old(self).cache_view()
                &&& final(self).cache_size() == old(self).cache_size()
                &&& final(self).clock() == old(self).clock()
            },
            old(self).entries_view().dom().contains(context@) && old(self).entries_view()[context@].generation
                == generation ==> {
                let e = old(self).entries_view()[context@];
                let last = final(self).entries_view()[context@].last_image;
                &&& final(self).entries_view() == old(self).entries_view().insert(
                    context@,
                    (Entry { last_image: last, ..finished(e, result, now) }),
                )
                &&& match result {
                    Ok(data) => {
                        let stored = final(self).cache_view()[(e.kind, e.key@)].0;
                        &&& frame is Widget
                        &&& last == e.last_image
                        &&& cloned(data, stored)
                        &&& final(self).clock() == tick(old(self).clock())
                        &&& cache_written(
                            old(self).cache_view(),
                            old(self).cache_size(),
                            final(self).cache_view(),
                            (e.kind, e.key@),
                            stored,
                            final(self).clock(),
                        )
                    },
                    Err(f) => {
                        &&& final(self).cache_view() == old(self).cache_view()
                        &&& final(self).cache_size() == old(self).cache_size()
                        &&& final(self).clock() == old(self).clock()
                        &&& match failure_image(e, f) {
                            Some(img) => if shows(e.last_image, img) {
                                frame is Keep && last == e.last_image
                            } else {
                                frame matches Frame::Image(s) && s@ == img && shows(last, img)
                            },
                            None => frame is Keep && last == e.last_image,
                        }
                    },
                }
            },
    {
        let c = chars_of(context);
        let i = match self.find_entry(&c) {
            Some(i) => i,
            None => {
                return Frame::Keep;
            },
        };
        proof {
            lemma_keyed_get(self.entries@, entry_key(), entry_val(), i as int);
        }
        let ghost before = self.entries@;
        self.entries[i].1.busy = false;
        if self.entries[i].1.generation != generation {
            self.entries[i].1.next_due = now;
            proof {
                assert(self.entries@ == before.update(i as int, self.entries@[i as int]));
                lemma_keyed_update(before, entry_key(), entry_val(), i as int, self.entries@[i as int]);
            }
            return Frame::Keep;
        }
        match result {
            Ok(data) => {
                self.entries[i].1.unreachable_since = 0;
                let stored = data.clone();
                self.entries[i].1.data = Some(data);
                proof {
                    assert(self.entries@ == before.update(i as int, self.entries@[i as int]));
                    lemma_keyed_update(before, entry_key(), entry_val(), i as int, self.entries@[i as int]);
                }
                let kind = self.entries[i].1.kind;
                let key = self.entries[i].1.key.clone();
                self.cache_data(kind, key, stored);
                Frame::Widget
            },
            Err(f) => {
                if f.unreachable {
                    let attempts = if self.entries[i].1.unreachable_since == u32::MAX {
                        u32::MAX
                    } else {
                        self.entries[i].1.unreachable_since + 1
                    };
                    self.entries[i].1.unreachable_since = attempts;
                    let delay = retry_delay(self.entries[i].1.kind, &self.entries[i].1.settings, attempts);
                    self.entries[i].1.next_due = now + delay;
                } else {
                    self.entries[i].1.unreachable_since = 0;
                }
                let image = if self.entries[i].1.data.is_some() {
                    None
                } else if f.unreachable {
                    Some(offline(self.entries[i].1.kind))
                } else {
                    Some(error(f.message.as_str()))
                };
                let frame = match image {
                    None => Frame::Keep,
                    Some(img) => {
                        let same = match &self.entries[i].1.last_image {
                            Some(last) => eq_chars_str(&chars_of(last.as_str()), img.as_str()),
                            None => false,
                        };
                        if same {
                            Frame::Keep
                        } else {
                            self.entries[i].1.last_image = Some(img.clone());
                            Frame::Image(img)
                        }
                    },
                };
                proof {
                    assert(self.entries@ == before.update(i as int, self.entries@[i as int]));
                    lemma_keyed_update(before, entry_key(), entry_val(), i as int, self.entries@[i as int]);
                }
                frame
            },
        }
    }
}

impl<D, W: LiveWorker> Runtime<D, W> {
    /// Records `image` as the frame of the widget on `context` and returns it, unless the
    /// widget is gone or already shows it.
    pub fn show(&mut self, context: &str, image: String) -> (r: Option<String>)
        requires
            old(self).wf(),
        ensures
            final(self).wf(),
            final(self).cache_view() == old(self).cache_view(),
            final(self).cache_size() == old(self).cache_size(),
            final(self).clock() == old(self).clock(),
            final(self).worker_spec() == old(self).worker_spec(),
            match r {
                Some(s) => {
                    &&& s@ == image@
                    &&& old(self).entries_view().dom().contains(context@)
                    &&& !shows(old(self).entries_view()[context@].last_image, image@)
                    &&& final(self).entries_view() == old(self).entries_view().insert(
                        context@,
                        (Entry { last_image: Some(image), ..old(self).entries_view()[context@] }),
                    )
                },
                None => {
                    &&& final(self).entries_view() == old(self).entries_view()
                    &&& old(self).entries_view().dom().contains(context@) ==> shows(
                        old(self).entries_view()[context@].last_image,
                        image@,
                    )
                },
            },
    {
        let c = chars_of(context);
        match self.find_entry(&c) {
            Some(i) => {
                proof {
                    lemma_keyed_get(self.entries@, entry_key(), entry_val(), i as int);
                }
                let same = match &self.entries[i].1.last_image {
                    Some(last) => eq_chars_str(&chars_of(last.as_str()), image.as_str()),
                    None => false,
                };
                if same {
                    None
                } else {
                    let ghost before = self.entries@;
                    let shown = image.clone();
                    self.entries[i].1.last_image = Some(image);
                    proof {
                        assert(self.entries@ == before.update(i as int, self.entries@[i as int]));
                        lemma_keyed_update(before, entry_key(), entry_val(), i as int, self.entries@[i as int]);
                    }
                    Some(shown)
                }
            },
            None => None,
        }
    }
}

/// What `cache_data` writes is what `cached_data` reads back under the same request:
/// after a write of `v` under `k`, the cache holds `v` under `k`.
pub proof fn lemma_cache_read_after_write<D>(
    old: Map<(ActionKind, Seq<char>), (D, u64)>,
    old_size: nat,
    new: Map<(ActionKind, Seq<char>), (D, u64)>,
    k: (ActionKind, Seq<char>),
    v: D,
    clock: u64,
)
    requires
        cache_written(old, old_size, new, k, v, clock),
    ensures
        new.dom().contains(k),
        new[k].0 == v,
{
}

/// A settings change gives the widget a generation different from the one any earlier
/// request was collected with, so `finish` drops the results of those requests.
pub proof fn lemma_update_outdates_requests(generation: u64)
    ensures
        tick(generation) != generation,
{
}

/// A source that cannot be reached never changes what a widget with data shows, nor its
/// data.
pub proof fn lemma_unreachable_keeps_frame<D>(e: Entry<D>, f: Failure, now: u64)
    requires
        e.data is Some,
        f.unreachable,
    ensures
        failure_image(e, f) is None,
        finished(e, Err(f), now).data == e.data,
        finished(e, Err(f), now).last_image == e.last_image,
{
}


/// What identifies the request of a widget, so widgets asking the same are fetched once:
/// the upper-cased currency codes, the IQAir page, or the coordinates, as set. Stock and
/// script widgets' keys hold their numeric settings and raw settings as the plugin prints
/// them, so the plugin makes those (nothing here).
pub open spec fn request_key_spec(kind: ActionKind, settings: SettingsValue) -> Option<Seq<char>> {
    match kind {
        ActionKind::Gold => Some("gold"@),
        ActionKind::Currency => Some(currency_codes(settings).0 + ":"@ + currency_codes(settings).1),
        ActionKind::AirQuality => Some(setting_string_spec(settings, "url"@, DEFAULT_AQI_URL@)),
        ActionKind::Weather => Some(
            setting_string_spec(settings, "lat"@, "13.72"@) + ":"@ + setting_string_spec(settings, "lon"@, "100.41"@),
        ),
        ActionKind::WorkHours => Some("work-hours"@),
        _ => None,
    }
}

/// A weather widget's request is keyed by its own place: the key is its latitude setting
/// (13.72 when unset), `:`, then its longitude setting (100.41 when unset), so widgets
/// at the same latitude but different longitudes never share a request.
pub proof fn lemma_weather_key_is_its_place(settings: SettingsValue, other: SettingsValue)
    ensures
        ({
            let lat = setting_string_spec(settings, "lat"@, "13.72"@);
            let lon = setting_string_spec(settings, "lon"@, "100.41"@);
            &&& request_key_spec(ActionKind::Weather, settings) is Some
            &&& request_key_spec(ActionKind::Weather, settings).unwrap().len() == lat.len() + 1 + lon.len()
            &&& request_key_spec(ActionKind::Weather, settings).unwrap().take(lat.len() as int) == lat
            &&& request_key_spec(ActionKind::Weather, settings).unwrap()[lat.len() as int] == ':'
            &&& request_key_spec(ActionKind::Weather, settings).unwrap().skip(lat.len() as int + 1) == lon
        }),
        setting_string_spec(settings, "lat"@, "13.72"@) == setting_string_spec(other, "lat"@, "13.72"@)
            && setting_string_spec(settings, "lon"@, "100.41"@) != setting_string_spec(other, "lon"@, "100.41"@)
            ==> request_key_spec(ActionKind::Weather, settings) != request_key_spec(ActionKind::Weather, other),
{
    reveal_strlit(":");
    let lat = setting_string_spec(settings, "lat"@, "13.72"@);
    let lon = setting_string_spec(settings, "lon"@, "100.41"@);
    let k = request_key_spec(ActionKind::Weather, settings).unwrap();
    assert(k.take(lat.len() as int) =~= lat);
    assert(k.skip(lat.len() as int + 1) =~= lon);
    let lat2 = setting_string_spec(other, "lat"@, "13.72"@);
    let lon2 = setting_string_spec(other, "lon"@, "100.41"@);
    let k2 = request_key_spec(ActionKind::Weather, other).unwrap();
    assert(k2.skip(lat2.len() as int + 1) =~= lon2);
}

/// What each widget's request is keyed by: gold and the work-hours clock share one
/// request each; a currency widget's key is its upper-cased `from` code (USD when unset),
/// `:`, and its upper-cased `to` code (THB when unset); an air-quality widget's key is
/// its page address setting; PowerShell widgets have no request key here.
pub proof fn lemma_request_keys_name_what_is_fetched(settings: SettingsValue)
    ensures
        request_key_spec(ActionKind::Gold, settings) == Some("gold"@),
        request_key_spec(ActionKind::WorkHours, settings) == Some("work-hours"@),
        request_key_spec(ActionKind::AirQuality, settings) == Some(setting_string_spec(settings, "url"@, DEFAULT_AQI_URL@)),
        request_key_spec(ActionKind::Currency, settings) == Some(
            uppercase(setting_string_spec(settings, "from"@, "USD"@)) + ":"@ + uppercase(
                setting_string_spec(settings, "to"@, "THB"@),
            ),
        ),
        request_key_spec(ActionKind::PowerShell, settings) is None,
{
}

/// The request key of a widget (see `request_key_spec`).
pub fn request_key(kind: ActionKind, settings: &SettingsValue) -> (r: Option<String>)
    ensures
        match r {
            Some(k) => request_key_spec(kind, *settings) == Some(k@),
            None => request_key_spec(kind, *settings) is None,
        },
{
    match kind {
        ActionKind::Gold => Some(owned("gold")),
        ActionKind::Currency => {
            let mut key = to_uppercase(setting_string(settings, "from", "USD").as_str());
            push_str(&mut key, ":");
            push_str(&mut key, to_uppercase(setting_string(settings, "to", "THB").as_str()).as_str());
            Some(key)
        },
        ActionKind::AirQuality => Some(setting_string(settings, "url", DEFAULT_AQI_URL)),
        ActionKind::Weather => {
            let mut key = setting_string(settings, "lat", "13.72");
            push_str(&mut key, ":");
            push_str(&mut key, setting_string(settings, "lon", "100.41").as_str());
            Some(key)
        },
        ActionKind::WorkHours => Some(owned("work-hours")),
        _ => None,
    }
}

} // verus!

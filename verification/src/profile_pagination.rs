//! The profile-pagination dial: it pages through a configured list of profiles and
//! shows the current profile with one indicator square per page.

use vstd::prelude::*;
use crate::pixel::{data_uri, percent_encoded, svg_uri_prefix, text_path, text_path_spec};
use crate::settings::{SettingsValue, setting, setting_value};
use crate::text::{
    chars_of, eq_chars, fixed2, push_fixed2, push_str, string_of, string_views,
};
use vstd::utf8::encode_utf8;
use vstd::arithmetic::div_mod::{
    lemma_fundamental_div_mod, lemma_fundamental_div_mod_converse, lemma_mod_pos_bound,
    lemma_add_mod_noop, lemma_add_mod_noop_right, lemma_small_mod,
};

verus! {

broadcast use vstd::string::group_string_axioms;

pub const ACTION: &'static str = "com.amansprojects.starterpack.profilepagination";

/// The profiles of a pagination dial, in the order they were checked.
pub struct PaginationSettings {
    pub profiles: Vec<String>,
}

/// The profiles the first `n` items of the `profiles` array name: each non-empty string
/// once, at its first occurrence.
pub open spec fn listed_profiles(items: Seq<SettingsValue>, n: nat) -> Seq<Seq<char>>
    decreases n,
{
    if n == 0 {
        Seq::empty()
    } else {
        let before = listed_profiles(items, (n - 1) as nat);
        match items[n - 1] {
            SettingsValue::String(s) => if s@.len() > 0 && !before.contains(s@) {
                before.push(s@)
            } else {
                before
            },
            _ => before,
        }
    }
}

/// The profiles a dial's settings list.
pub open spec fn profiles_of(settings: SettingsValue) -> Seq<Seq<char>> {
    match setting(settings, "profiles"@) {
        Some(SettingsValue::Array(items)) => listed_profiles(items@, items@.len()),
        _ => Seq::empty(),
    }
}

impl PaginationSettings {
    /// The non-empty strings of the `profiles` setting, each once, in order.
    pub fn from_settings(settings: &SettingsValue) -> (r: Self)
        ensures
            string_views(r.profiles@) == profiles_of(*settings),
    {
        let mut profiles: Vec<String> = Vec::new();
        match setting_value(settings, "profiles") {
            Some(SettingsValue::Array(items)) => {
                let mut i: usize = 0;
                while i < items.len()
                    invariant
                        i <= items@.len(),
                        string_views(profiles@) == listed_profiles(items@, i as nat),
                    decreases items@.len() - i,
                {
                    match &items[i] {
                        SettingsValue::String(s) => {
                            let c = chars_of(s.as_str());
                            let mut found = false;
                            let mut k: usize = 0;
                            while k < profiles.len()
                                invariant
                                    k <= profiles@.len(),
                                    c@ == s@,
                                    found == (exists|j: int| 0 <= j < k && profiles@[j]@ == s@),
                                decreases profiles@.len() - k,
                            {
                                let p = chars_of(profiles[k].as_str());
                                if eq_chars(&p, &c) {
                                    found = true;
                                }
                                k = k + 1;
                            }
                            proof {
                                let before = string_views(profiles@);
                                assert(found == before.contains(s@)) by {
                                    if found {
                                        let j = choose|j: int| 0 <= j < profiles@.len() && profiles@[j]@ == s@;
                                        assert(before[j] == s@);
                                    }
                                    if before.contains(s@) {
                                        let j = choose|j: int| 0 <= j < before.len() && before[j] == s@;
                                        assert(profiles@[j]@ == s@);
                                    }
                                }
                            }
                            if c.len() > 0 && !found {
                                let ghost before = profiles@;
                                profiles.push(string_of(&c));
                                assert(string_views(profiles@) =~= string_views(before).push(s@));
                            }
                        },
                        _ => {},
                    }
                    i = i + 1;
                }
            },
            _ => {
                assert(string_views(profiles@) =~= Seq::<Seq<char>>::empty());
            },
        }
        PaginationSettings { profiles }
    }
}

/// A dial lists each profile once, and lists exactly the non-empty strings of its
/// `profiles` array.
pub proof fn lemma_listed_profiles(items: Seq<SettingsValue>, n: nat)
    requires
        n <= items.len(),
    ensures
        listed_profiles(items, n).no_duplicates(),
        forall|p: Seq<char>| #[trigger] listed_profiles(items, n).contains(p) <==> (p.len() > 0
            && exists|j: int| 0 <= j < n && items[j] is String && items[j]->String_0@ == p),
    decreases n,
{
    if n > 0 {
        lemma_listed_profiles(items, (n - 1) as nat);
        let before = listed_profiles(items, (n - 1) as nat);
        assert forall|p: Seq<char>| #[trigger] listed_profiles(items, n).contains(p) <==> (p.len() > 0
            && exists|j: int| 0 <= j < n && items[j] is String && items[j]->String_0@ == p) by {
            let now = listed_profiles(items, n);
            if now.contains(p) {
                let k = choose|k: int| 0 <= k < now.len() && now[k] == p;
                if k < before.len() {
                    assert(before[k] == p);
                    assert(before.contains(p));
                } else {
                    assert(items[n - 1] is String);
                }
            }
            if p.len() > 0 && exists|j: int| 0 <= j < n && items[j] is String && items[j]->String_0@ == p {
                let j = choose|j: int| 0 <= j < n && items[j] is String && items[j]->String_0@ == p;
                if j < n - 1 {
                    assert(before.contains(p));
                    let k = choose|k: int| 0 <= k < before.len() && before[k] == p;
                    assert(now[k] == p);
                } else if !before.contains(p) {
                    assert(now[before.len() as int] == p);
                } else {
                    let k = choose|k: int| 0 <= k < before.len() && before[k] == p;
                    assert(now[k] == p);
                }
            }
        }
    }
}

// ---------------------------------------------------------------------------
// Current profile and page
// ---------------------------------------------------------------------------

/// Index of the first `.` in `s` (`s.len()` if there is none).
pub open spec fn dot_index(s: Seq<char>) -> nat
    decreases s.len(),
{
    if s.len() == 0 || s[0] == '.' {
        0
    } else {
        1 + dot_index(s.drop_first())
    }
}

proof fn lemma_dot_index_unique(s: Seq<char>, a: int)
    requires
        0 <= a <= s.len(),
        forall|k: int| 0 <= k < a ==> #[trigger] s[k] != '.',
        a < s.len() ==> s[a] == '.',
    ensures
        dot_index(s) == a,
    decreases s.len(),
{
    if a > 0 {
        assert forall|k: int| 0 <= k < a - 1 implies #[trigger] s.drop_first()[k] != '.' by {
            assert(s.drop_first()[k] == s[k + 1]);
        }
        assert(s[0] != '.');
        lemma_dot_index_unique(s.drop_first(), a - 1);
    }
}

/// The second `.`-separated field of a context, which names its profile
/// (`context.split('.').nth(1)`).
pub open spec fn context_profile_spec(context: Seq<char>) -> Option<Seq<char>> {
    let i = dot_index(context);
    if i == context.len() {
        None
    } else {
        let rest = context.skip((i + 1) as int);
        Some(rest.take(dot_index(rest) as int))
    }
}

fn find_dot(s: &Vec<char>, from: usize) -> (r: usize)
    requires
        from <= s@.len(),
    ensures
        from <= r <= s@.len(),
        r == from + dot_index(s@.skip(from as int)),
{
    let mut i = from;
    while i < s.len() && s[i] != '.'
        invariant
            from <= i <= s@.len(),
            forall|k: int| from <= k < i ==> s@[k] != '.',
        decreases s@.len() - i,
    {
        i = i + 1;
    }
    proof {
        let t = s@.skip(from as int);
        assert forall|k: int| 0 <= k < i - from implies #[trigger] t[k] != '.' by {
            assert(t[k] == s@[k + from]);
        }
        if i < s@.len() {
            assert(t[i - from] == s@[i as int]);
        }
        lemma_dot_index_unique(t, i - from);
    }
    i
}

/// The profile a context belongs to: its second `.`-separated field.
pub fn context_profile(context: &str) -> (r: Option<String>)
    ensures
        match r {
            Some(p) => context_profile_spec(context@) == Some(p@),
            None => context_profile_spec(context@) is None,
        },
{
    let c = chars_of(context);
    assert(c@.skip(0) == c@);
    let i = find_dot(&c, 0);
    if i == c.len() {
        return None;
    }
    let j = find_dot(&c, i + 1);
    let mut out: Vec<char> = Vec::new();
    let mut k = i + 1;
    while k < j
        invariant
            i + 1 <= k <= j <= c@.len(),
            out@ == c@.subrange(i + 1, k as int),
        decreases j - k,
    {
        out.push(c[k]);
        assert(c@.subrange(i + 1, k + 1) == c@.subrange(i + 1, k as int).push(c@[k as int]));
        k = k + 1;
    }
    assert(out@ == c@.skip(i + 1).take(dot_index(c@.skip(i + 1)) as int));
    Some(string_of(&out))
}

/// Index of the first entry of `profiles` equal to `p`.
pub open spec fn position_of(profiles: Seq<Seq<char>>, p: Seq<char>) -> Option<nat>
    decreases profiles.len(),
{
    if profiles.len() == 0 {
        None
    } else if profiles.last() == p {
        match position_of(profiles.drop_last(), p) {
            Some(i) => Some(i),
            None => Some((profiles.len() - 1) as nat),
        }
    } else {
        position_of(profiles.drop_last(), p)
    }
}

/// The page of the context's own profile, or the first page.
pub open spec fn selected_page_spec(context: Seq<char>, profiles: Seq<Seq<char>>) -> nat {
    match context_profile_spec(context) {
        Some(current) => match position_of(profiles, current) {
            Some(i) => i,
            None => 0,
        },
        None => 0,
    }
}

proof fn lemma_position_of(profiles: Seq<Seq<char>>, p: Seq<char>, i: int)
    requires
        0 <= i <= profiles.len(),
        forall|k: int| 0 <= k < i ==> profiles[k] != p,
        i < profiles.len() ==> profiles[i] == p,
    ensures
        position_of(profiles, p) == if i < profiles.len() {
            Some(i as nat)
        } else {
            None::<nat>
        },
    decreases profiles.len(),
{
    if profiles.len() > 0 {
        let d = profiles.drop_last();
        if i < profiles.len() - 1 {
            assert(d[i] == profiles[i]);
            lemma_position_of(d, p, i);
        } else {
            assert forall|k: int| 0 <= k < d.len() implies d[k] != p by {
                assert(d[k] == profiles[k]);
            }
            lemma_position_of(d, p, d.len() as int);
        }
    }
}

/// The page of the profile the context belongs to, or the first page.
pub fn selected_page(context: &str, profiles: &Vec<String>) -> (page: usize)
    ensures
        page == selected_page_spec(context@, string_views(profiles@)),
        profiles@.len() > 0 ==> page < profiles@.len(),
{
    match context_profile(context) {
        Some(current) => {
            let cur = chars_of(current.as_str());
            let mut i: usize = 0;
            while i < profiles.len()
                invariant
                    i <= profiles@.len(),
                    cur@ == current@,
                    context_profile_spec(context@) == Some(current@),
                    forall|k: int| 0 <= k < i ==> profiles@[k]@ != current@,
                decreases profiles@.len() - i,
            {
                let p = chars_of(profiles[i].as_str());
                if eq_chars(&p, &cur) {
                    proof {
                        assert(string_views(profiles@)[i as int] == current@);
                        assert forall|k: int| 0 <= k < i implies string_views(profiles@)[k] != current@ by {
                            assert(string_views(profiles@)[k] == profiles@[k]@);
                        }
                        lemma_position_of(string_views(profiles@), current@, i as int);
                    }
                    return i;
                }
                i = i + 1;
            }
            proof {
                assert forall|k: int| 0 <= k < profiles@.len() implies string_views(profiles@)[k] != current@ by {
                    assert(string_views(profiles@)[k] == profiles@[k]@);
                }
                lemma_position_of(string_views(profiles@), current@, profiles@.len() as int);
            }
            0
        },
        None => 0,
    }
}

/// The page `ticks` dial steps away from `current`, wrapping around `count` pages.
pub open spec fn rotated_page_spec(current: int, count: int, ticks: int) -> int {
    if count == 0 {
        0
    } else {
        (current + ticks % count) % count
    }
}

/// The page reached by turning the dial `ticks` steps (negative turns back) from page
/// `current`, wrapping around `count` pages.
pub fn rotated_page(current: usize, count: usize, ticks: i16) -> (page: usize)
    requires
        count <= isize::MAX,
        count == 0 || current + ticks as int % count as int <= usize::MAX,
    ensures
        page as int == rotated_page_spec(current as int, count as int, ticks as int),
        count > 0 ==> page < count,
{
    if count == 0 {
        return 0;
    }
    let n = count as u128;
    let delta: u128 = if ticks >= 0 {
        (ticks as u128) % n
    } else {
        let m = ((0i32 - ticks as i32) as u128) % n;
        if m == 0 { 0 } else { n - m }
    };
    proof {
        let ti = ticks as int;
        let ni = n as int;
        if ticks >= 0 {
            assert(delta as int == ti % ni);
        } else {
            let mi = (-ti) % ni;
            let qi = (-ti) / ni;
            lemma_fundamental_div_mod(-ti, ni);
            lemma_mod_pos_bound(-ti, ni);
            assert(-ti == ni * qi + mi);
            if mi == 0 {
                assert(ti == (-qi) * ni + 0) by (nonlinear_arith) requires -ti == ni * qi + mi, mi == 0;
                lemma_fundamental_div_mod_converse(ti, ni, -qi, 0);
            } else {
                assert(ti == (-qi - 1) * ni + (ni - mi)) by (nonlinear_arith) requires -ti == ni * qi + mi;
                lemma_fundamental_div_mod_converse(ti, ni, -qi - 1, ni - mi);
            }
        }
    }
    ((current as u128 + delta as u128) % (count as u128)) as usize
}

/// Turning the dial lands on `(current + ticks)` taken modulo the page count, always a
/// page that exists; with no pages it stays on page 0.
pub proof fn lemma_rotation_wraps(current: int, count: int, ticks: int)
    ensures
        count > 0 ==> rotated_page_spec(current, count, ticks) == (current + ticks) % count,
        count > 0 ==> 0 <= rotated_page_spec(current, count, ticks) < count,
        count == 0 ==> rotated_page_spec(current, count, ticks) == 0,
{
    if count > 0 {
        lemma_add_mod_noop_right(current, ticks, count);
        vstd::arithmetic::div_mod::lemma_mod_bound(current + ticks, count);
    }
}

/// Turning the dial back by as many steps as it was turned returns to the page.
pub proof fn lemma_rotation_reversible(current: int, count: int, ticks: int)
    requires
        0 <= current < count,
    ensures
        rotated_page_spec(rotated_page_spec(current, count, ticks), count, -ticks) == current,
{
    let a = (current + ticks % count) % count;
    lemma_add_mod_noop_right(current, ticks, count);
    assert(a == (current + ticks) % count);
    lemma_add_mod_noop(current + ticks, -ticks, count);
    assert(current + ticks + -ticks == current);
    lemma_small_mod(current as nat, count as nat);
    lemma_add_mod_noop_right(a, -ticks, count);
}

// ---------------------------------------------------------------------------
// The touch-strip image
// ---------------------------------------------------------------------------

/// The part of a profile path after its last `/`.
pub open spec fn last_segment(s: Seq<char>) -> Seq<char>
    decreases s.len(),
{
    if s.len() == 0 || s.last() == '/' {
        Seq::empty()
    } else {
        last_segment(s.drop_last()).push(s.last())
    }
}

/// The profile's last path segment, cut to 14 characters followed by `...`.
pub open spec fn shortened_profile_spec(profile: Seq<char>) -> Seq<char> {
    let name = last_segment(profile);
    if name.len() > 14 {
        name.take(14) + "..."@
    } else {
        name
    }
}

/// The profile's name for display: its last path segment, cut to 14 characters.
pub fn shortened_profile(profile: &str) -> (r: String)
    ensures
        r@ == shortened_profile_spec(profile@),
{
    let p = chars_of(profile);
    let mut start: usize = p.len();
    assert(p@.take(p@.len() as int) == p@);
    assert(p@.skip(p@.len() as int) =~= Seq::<char>::empty());
    assert(p@ + Seq::<char>::empty() == p@);
    while start > 0 && p[start - 1] != '/'
        invariant
            start <= p@.len(),
            last_segment(p@) == last_segment(p@.take(start as int)) + p@.skip(start as int),
        decreases start,
    {
        proof {
            let t = p@.take(start as int);
            assert(t.drop_last() == p@.take(start - 1));
            assert(t.last() == p@[start - 1]);
            assert(p@.skip(start - 1) == seq![p@[start - 1]] + p@.skip(start as int));
        }
        start = start - 1;
    }
    proof {
        assert(p@ == p@.take(p@.len() as int));
        assert(p@.skip(p@.len() as int) =~= Seq::<char>::empty());
    }
    let mut name: Vec<char> = Vec::new();
    let mut i = start;
    while i < p.len() && i - start < 14
        invariant
            start <= i <= p@.len(),
            i <= start + 14,
            name@ == p@.subrange(start as int, i as int),
        decreases p@.len() - i,
    {
        name.push(p[i]);
        assert(p@.subrange(start as int, i + 1) == p@.subrange(start as int, i as int).push(p@[i as int]));
        i = i + 1;
    }
    proof {
        assert(last_segment(p@.take(start as int)) =~= Seq::<char>::empty()) by {
            let t = p@.take(start as int);
            if t.len() > 0 {
                assert(t.last() == '/');
            }
        }
        assert(last_segment(p@) =~= p@.skip(start as int));
    }
    let mut r = string_of(&name);
    if p.len() - start > 14 {
        push_str(&mut r, "...");
        assert(name@ =~= p@.skip(start as int).take(14));
    } else {
        assert(name@ =~= p@.skip(start as int));
    }
    r
}

/// Font size of the profile name by its length.
pub open spec fn profile_size(len: nat) -> u16 {
    if len <= 8 {
        17
    } else if len <= 12 {
        15
    } else {
        13
    }
}

/// Side of an indicator square as a fraction (numerator, denominator): 8 px up to ten
/// pages, 7 px up to fourteen, then what fits 120 px with 2 px gaps, kept within 2..=5.
pub open spec fn indicator_size(count: int) -> (int, int) {
    if count <= 10 {
        (8, 1)
    } else if count <= 14 {
        (7, 1)
    } else if 122 - 2 * count >= 5 * count {
        (5, 1)
    } else if 122 - 2 * count <= 2 * count {
        (2, 1)
    } else {
        (122 - 2 * count, count)
    }
}

/// Gap between indicator squares in pixels.
pub open spec fn indicator_gap(count: int) -> int {
    if count <= 10 {
        6
    } else if count <= 14 {
        4
    } else {
        2
    }
}

/// Left edge of indicator `index`, as a fraction (numerator, denominator): the row of
/// squares is centred on the 176 px strip.
pub open spec fn indicator_x(count: int, index: int) -> (int, int) {
    let (s, d) = indicator_size(count);
    let g = indicator_gap(count);
    let width = s * count + g * d * (count - 1);
    (176 * d - width + 2 * (s + g * d) * index, 2 * d)
}

/// A fraction rounded to the nearest hundredth, in hundredths.
pub open spec fn centi(num: int, den: int) -> int {
    (200 * num + den) / (2 * den)
}

pub const PAGE_OPEN: &'static str = "<svg xmlns=\"http://www.w3.org/2000/svg\" width=\"176\" height=\"112\" viewBox=\"0 0 176 112\" shape-rendering=\"crispEdges\">\n<rect width=\"176\" height=\"112\" fill=\"#070708\"/>\n";
pub const PAGE_CLOSE: &'static str = "\n</svg>";

/// One indicator square, white for the current page.
pub open spec fn indicator_rect(count: int, index: int, page: int) -> Seq<char> {
    let (s, d) = indicator_size(count);
    let (xn, xd) = indicator_x(count, index);
    "<rect x=\""@ + fixed2(centi(xn, xd)) + "\" y=\"77\" width=\""@ + fixed2(centi(s, d))
        + "\" height=\""@ + fixed2(centi(s, d)) + "\" fill=\""@ + (if index == page {
        "#ffffff"@
    } else {
        "#3f3f46"@
    }) + "\"/>"@
}

/// The indicators of the first `n` pages.
pub open spec fn indicators(count: int, page: int, n: nat) -> Seq<char>
    decreases n,
{
    if n == 0 {
        Seq::empty()
    } else {
        indicators(count, page, (n - 1) as nat) + indicator_rect(count, n - 1, page)
    }
}

/// The pagination document: the current profile and a row of page indicators.
pub open spec fn pagination_svg(page: int, profiles: Seq<Seq<char>>) -> Seq<char> {
    let count = profiles.len();
    let name = if count == 0 {
        "NO PROFILE"@
    } else {
        shortened_profile_spec(profiles[page])
    };
    let color = if count == 0 {
        "#52525b"@
    } else {
        "#f4f4f5"@
    };
    PAGE_OPEN@ + text_path_spec(name, 8800, 59, profile_size(name.len()), color) + indicators(
        count as int,
        page,
        count,
    ) + PAGE_CLOSE@
}

/// The square of page `index` in a row of `count` indicators, up to its fill colour.
pub open spec fn indicator_square_start(count: int, index: int) -> Seq<char> {
    let (s, d) = indicator_size(count);
    let (xn, xd) = indicator_x(count, index);
    "<rect x=\""@ + fixed2(centi(xn, xd)) + "\" y=\"77\" width=\""@ + fixed2(centi(s, d)) + "\" height=\""@
        + fixed2(centi(s, d)) + "\" fill=\""@
}

proof fn indicators_rest(count: int, page: int, m: nat, n: nat) -> (rest: Seq<char>)
    requires
        m <= n,
    ensures
        indicators(count, page, n) == indicators(count, page, m) + rest,
    decreases n,
{
    if m == n {
        assert(indicators(count, page, n) =~= indicators(count, page, m) + Seq::<char>::empty());
        Seq::empty()
    } else {
        let r = indicators_rest(count, page, m, (n - 1) as nat);
        let rest = r + indicator_rect(count, n - 1, page);
        assert(indicators(count, page, n) =~= indicators(count, page, m) + rest);
        rest
    }
}

/// The pagination image marks the page shown: in its row of indicator squares, the
/// square of page `index` is filled white when `index` is the page shown and dark grey
/// otherwise.
pub proof fn lemma_current_page_is_white(page: int, profiles: Seq<Seq<char>>, index: int)
    requires
        0 <= page < profiles.len(),
        0 <= index < profiles.len(),
    ensures
        crate::render::occurs_in(
            indicator_square_start(profiles.len() as int, index) + (if index == page {
                "#ffffff"@
            } else {
                "#3f3f46"@
            }) + "\"/>"@,
            pagination_svg(page, profiles),
        ),
{
    let count = profiles.len();
    let name = shortened_profile_spec(profiles[page]);
    let head = PAGE_OPEN@ + text_path_spec(name, 8800, 59, profile_size(name.len()), "#f4f4f5"@);
    let rest = indicators_rest(count as int, page, (index + 1) as nat, count);
    let before = head + indicators(count as int, page, index as nat);
    let after = rest + PAGE_CLOSE@;
    let fill = if index == page {
        "#ffffff"@
    } else {
        "#3f3f46"@
    };
    assert(indicator_rect(count as int, index, page) =~= indicator_square_start(count as int, index) + fill + "\"/>"@);
    let piece = indicator_square_start(count as int, index) + fill + "\"/>"@;
    let doc = pagination_svg(page, profiles);
    assert(doc =~= before + piece + after);
    assert(doc.subrange(before.len() as int, (before.len() + piece.len()) as int) =~= piece);
}

fn size_of_profile(len: usize) -> (s: u16)
    ensures
        s == profile_size(len as nat),
{
    if len <= 8 {
        17
    } else if len <= 12 {
        15
    } else {
        13
    }
}

fn round_centi(num: i128, den: i128) -> (r: i128)
    requires
        1 <= den <= 60,
        -0x1_0000_0000_0000_0000_0000_0000i128 <= num <= 0x1_0000_0000_0000_0000_0000_0000i128,
    ensures
        r as int == centi(num as int, den as int),
        r > i128::MIN,
{
    let a = 200 * num + den;
    let b = 2 * den;
    if a >= 0 {
        let q = ((a as u128) / (b as u128)) as i128;
        proof {
            lemma_fundamental_div_mod(a as int, b as int);
        }
        q
    } else {
        let m = (0 - a) as u128;
        let bu = b as u128;
        let c = (m + bu - 1) / bu;
        proof {
            let ai = a as int;
            let bi = b as int;
            let ci = c as int;
            lemma_fundamental_div_mod(m as int + bi - 1, bi);
            lemma_mod_pos_bound(m as int + bi - 1, bi);
            let rr = (m as int + bi - 1) % bi;
            assert(m as int + bi - 1 == bi * ci + rr);
            assert(ai == (-ci) * bi + (bi - 1 - rr)) by (nonlinear_arith)
                requires m as int == -ai, m as int + bi - 1 == bi * ci + rr;
            lemma_fundamental_div_mod_converse(ai, bi, -ci, bi - 1 - rr);
        }
        0 - (c as i128)
    }
}

#[verifier::spinoff_prover]
#[verifier::rlimit(40)]
fn push_indicator(s: &mut String, count: usize, index: usize, page: usize)
    requires
        index < count,
    ensures
        final(s)@ == old(s)@ + indicator_rect(count as int, index as int, page as int),
{
    let c = count as i128;
    let (sn, sd): (i128, i128) = if count <= 10 {
        (8, 1)
    } else if count <= 14 {
        (7, 1)
    } else if 122 - 2 * c >= 5 * c {
        (5, 1)
    } else if 122 - 2 * c <= 2 * c {
        (2, 1)
    } else {
        (122 - 2 * c, c)
    };
    let g: i128 = if count <= 10 { 6 } else if count <= 14 { 4 } else { 2 };
    proof {
        assert(1 <= sd <= 30);
        assert(0 <= sn <= 8 * sd);
        assert(sn * c <= 8 * 30 * 0x1_0000_0000_0000_0000) by (nonlinear_arith)
            requires 0 <= sn <= 8 * sd, 1 <= sd <= 30, 0 <= c <= 0x1_0000_0000_0000_0000;
        assert(g * sd * (c - 1) <= 6 * 30 * 0x1_0000_0000_0000_0000) by (nonlinear_arith)
            requires 2 <= g <= 6, 1 <= sd <= 30, 1 <= c <= 0x1_0000_0000_0000_0000;
        assert(g * sd * (c - 1) >= 0) by (nonlinear_arith)
            requires 2 <= g <= 6, 1 <= sd <= 30, 1 <= c;
        assert(0 <= 2 * (sn + g * sd) * (index as i128) <= 2 * 14 * 30 * 0x1_0000_0000_0000_0000) by (nonlinear_arith)
            requires 0 <= sn <= 8 * sd, 1 <= sd <= 30, 2 <= g <= 6, 0 <= index < c, c <= 0x1_0000_0000_0000_0000;
    }
    let width = sn * c + g * sd * (c - 1);
    let xn = 176 * sd - width + 2 * (sn + g * sd) * (index as i128);
    let xd = 2 * sd;
    let x_centi = round_centi(xn, xd);
    let s_centi = round_centi(sn, sd);
    proof {
        assert(indicator_size(count as int) == (sn as int, sd as int));
        assert(indicator_gap(count as int) == g as int);
        assert(indicator_x(count as int, index as int) == (xn as int, xd as int));
        assert(x_centi as int == centi(xn as int, xd as int));
        assert(s_centi as int == centi(sn as int, sd as int));
        assert(s_centi > i128::MIN);
        assert(x_centi > i128::MIN);
    }
    push_str(s, "<rect x=\"");
    push_fixed2(s, x_centi);
    push_str(s, "\" y=\"77\" width=\"");
    push_fixed2(s, s_centi);
    push_str(s, "\" height=\"");
    push_fixed2(s, s_centi);
    push_str(s, "\" fill=\"");
    if index == page {
        push_str(s, "#ffffff");
    } else {
        push_str(s, "#3f3f46");
    }
    push_str(s, "\"/>");
}

/// The 176x112 touch-strip image: the profile of page `page`, or `NO PROFILE`, above a
/// row of page indicators with the current page in white.
pub fn pagination_image(page: usize, profiles: &Vec<String>) -> (uri: String)
    requires
        profiles@.len() > 0 ==> page < profiles@.len(),
    ensures
        uri@ == svg_uri_prefix() + percent_encoded(
            encode_utf8(pagination_svg(page as int, string_views(profiles@))),
        ),
{
    let count = profiles.len();
    let name = if count == 0 {
        string_of(&chars_of("NO PROFILE"))
    } else {
        shortened_profile(profiles[page].as_str())
    };
    let color = if count == 0 { "#52525b" } else { "#f4f4f5" };
    let size = size_of_profile(name.as_str().unicode_len());
    let mut svg = String::new();
    push_str(&mut svg, PAGE_OPEN);
    push_str(&mut svg, text_path(name.as_str(), 8800, 59, size, color).as_str());
    let ghost head = svg@;
    let mut index: usize = 0;
    while index < count
        invariant
            index <= count == profiles@.len(),
            svg@ == head + indicators(count as int, page as int, index as nat),
        decreases count - index,
    {
        push_indicator(&mut svg, count, index, page);
        index = index + 1;
    }
    push_str(&mut svg, PAGE_CLOSE);
    proof {
        if count > 0 {
            assert(string_views(profiles@)[page as int] == profiles@[page as int]@);
        }
    }
    data_uri(svg.as_str())
}

/// What turning a pagination dial does: nothing but an alert and a redraw when it lists no
/// profiles (`None`); otherwise the page it lands on and, when the dial is not already on
/// that page's profile, the profile to switch the device to.
pub open spec fn rotation_spec(context: Seq<char>, profiles: Seq<Seq<char>>, ticks: i16) -> Option<(int, Option<Seq<char>>)> {
    if profiles.len() == 0 {
        None
    } else {
        let page = rotated_page_spec(selected_page_spec(context, profiles) as int, profiles.len() as int, ticks as int);
        Some(
            (
                page,
                if context_profile_spec(context) == Some(profiles[page]) {
                    None
                } else {
                    Some(profiles[page])
                },
            ),
        )
    }
}

/// The page a dial turn lands on and the profile to switch to (see `rotation_spec`).
pub fn rotation(context: &str, profiles: &Vec<String>, ticks: i16) -> (r: Option<(usize, Option<String>)>)
    requires
        profiles@.len() <= isize::MAX,
    ensures
        match r {
            Some((page, target)) => {
                &&& page < profiles@.len()
                &&& rotation_spec(context@, string_views(profiles@), ticks) == Some(
                    (
                        page as int,
                        match target {
                            Some(t) => Some(t@),
                            None => None::<Seq<char>>,
                        },
                    ),
                )
            },
            None => rotation_spec(context@, string_views(profiles@), ticks) is None,
        },
{
    if profiles.len() == 0 {
        return None;
    }
    let current = selected_page(context, profiles);
    proof {
        assert((ticks as int) % (profiles@.len() as int) < profiles@.len());
    }
    let page = rotated_page(current, profiles.len(), ticks);
    let target = &profiles[page];
    let same = match context_profile(context) {
        Some(p) => eq_chars(&chars_of(p.as_str()), &chars_of(target.as_str())),
        None => false,
    };
    proof {
        assert(string_views(profiles@)[page as int] == profiles@[page as int]@);
    }
    if same {
        Some((page, None))
    } else {
        Some((page, Some(owned_copy(target.as_str()))))
    }
}

fn owned_copy(t: &str) -> (s: String)
    ensures
        s@ == t@,
{
    crate::text::owned(t)
}

} // verus!

//! What the widget sources yield, and the checks and parsing done on requests and
//! responses, and the addresses asked for. The HTTP requests themselves are sent by the program.

use vstd::prelude::*;
use crate::model::AirQualityData;
use crate::settings::{all_digits, digits_value, unsigned_digits, SettingsValue};
use crate::settings::{setting_string, setting_string_spec};
use crate::pixel::percent_encoded;
use crate::text::{ascii_lower, chars_of, push_str, string_of, to_ascii_lower, to_uppercase, trim_str, trimmed, uppercase};
use vstd::string::StringSliceAdditionalSpecFns;

verus! {

broadcast use vstd::string::group_string_axioms;

/// A refresh that produced no data.
pub struct Failure {
    pub message: String,
    /// The source was never reached (the machine is offline or the upstream API is
    /// down) rather than the widget being misconfigured. Those refreshes are skipped
    /// silently so a dropped connection never repaints a working widget.
    pub unreachable: bool,
}

/// The IQAir page read when a widget names none.
pub const DEFAULT_AQI_URL: &'static str = "https://www.iqair.com/th-en/thailand/bangkok/nong-khaem";

/// The AQI badge of an IQAir page: its colour class, the number, and the level below it.
pub const AQI_BADGE: &'static str = "(?is)class=[\"']([^\"']*aqi-legend-bg-[^\"']*)[\"'][^>]*>.*?<p[^>]*>\\s*([0-9]{1,3})\\s*</p>.*?US AQI.*?</div>\\s*<p[^>]*class=[\"'][^\"']*font-body-l-medium[^\"']*[\"'][^>]*>\\s*([^<]+?)\\s*</p>";

/// A number of at most three digits standing alone between two tags.
pub const AQI_VALUE: &'static str = ">\\s*([0-9]{1,3})\\s*<";

/// How many bytes before the "US AQI" label the fallback looks for the number.
pub const AQI_LOOKBEHIND: usize = 4000;

// ---------------------------------------------------------------------------
// Regular expressions (the `regex` crate)
// ---------------------------------------------------------------------------

/// The texts of the groups of a match, by view.
pub open spec fn group_texts(groups: Seq<Option<String>>) -> Seq<Option<Seq<char>>> {
    groups.map_values(|g: Option<String>| match g {
        Some(s) => Some(s@),
        None => None,
    })
}

/// The groups of the leftmost-first match of `pattern` in `haystack`, group 0 (the whole
/// match) first, each absent when it took no part in the match; nothing when there is no
/// match or the pattern does not compile.
pub uninterp spec fn regex_captures(pattern: Seq<char>, haystack: Seq<char>) -> Option<Seq<Option<Seq<char>>>>;

/// The groups of each successive non-overlapping match of `pattern` in `haystack`, as
/// `regex_captures` gives them; none when the pattern does not compile.
pub uninterp spec fn regex_captures_all(pattern: Seq<char>, haystack: Seq<char>) -> Seq<Seq<Option<Seq<char>>>>;

/// Compiles `pattern` with `regex::Regex::new` and returns the groups of its first
/// match in `haystack` (`regex::Regex::captures`), each group's text as a `String`.
/// Trusted: the result is `regex_captures` of the pattern and the haystack.
#[verifier::external_body]
fn captures(pattern: &str, haystack: &str) -> (r: Option<Vec<Option<String>>>)
    ensures
        match r {
            Some(groups) => regex_captures(pattern@, haystack@) == Some(group_texts(groups@)),
            None => regex_captures(pattern@, haystack@) is None,
        },
{
    let found = regex::Regex::new(pattern).ok()?.captures(haystack)?;
    Some(found.iter().map(|m| m.map(|m| m.as_str().to_string())).collect())
}

/// Compiles `pattern` with `regex::Regex::new` and returns the groups of every match in
/// `haystack` (`regex::Regex::captures_iter`), in order. Trusted: the result is
/// `regex_captures_all` of the pattern and the haystack.
#[verifier::external_body]
fn captures_all(pattern: &str, haystack: &str) -> (r: Vec<Vec<Option<String>>>)
    ensures
        r@.map_values(|m: Vec<Option<String>>| group_texts(m@)) == regex_captures_all(pattern@, haystack@),
{
    match regex::Regex::new(pattern) {
        Ok(re) => re
            .captures_iter(haystack)
            .map(|c| c.iter().map(|m| m.map(|m| m.as_str().to_string())).collect())
            .collect(),
        Err(_) => Vec::new(),
    }
}

// ---------------------------------------------------------------------------
// HTML entities
// ---------------------------------------------------------------------------

/// `s` with every occurrence of `pat`, scanning from the left without overlaps,
/// replaced by `rep` (what `str::replace` does for a non-empty pattern).
pub open spec fn replaced(s: Seq<char>, pat: Seq<char>, rep: Seq<char>) -> Seq<char>
    decreases s.len(),
{
    if pat.len() == 0 || s.len() < pat.len() {
        s
    } else if s.take(pat.len() as int) == pat {
        rep + replaced(s.skip(pat.len() as int), pat, rep)
    } else {
        seq![s[0]] + replaced(s.drop_first(), pat, rep)
    }
}

fn starts_at(s: &Vec<char>, i: usize, pat: &Vec<char>) -> (r: bool)
    requires
        i + pat@.len() <= s@.len(),
    ensures
        r == (s@.skip(i as int).take(pat@.len() as int) == pat@),
{
    let n = s.len();
    let mut j: usize = 0;
    while j < pat.len()
        invariant
            n == s@.len(),
            i + pat@.len() <= s@.len(),
            j <= pat@.len(),
            forall|m: int| 0 <= m < j ==> s@[i + m] == pat@[m],
        decreases pat@.len() - j,
    {
        if s[i + j] != pat[j] {
            assert(s@.skip(i as int).take(pat@.len() as int)[j as int] != pat@[j as int]);
            return false;
        }
        j = j + 1;
    }
    assert(s@.skip(i as int).take(pat@.len() as int) =~= pat@);
    true
}

/// `s` with every `pat` replaced by `rep`, left to right without overlaps.
pub fn replace_all(s: &Vec<char>, pat: &Vec<char>, rep: &Vec<char>) -> (r: Vec<char>)
    requires
        pat@.len() > 0,
    ensures
        r@ == replaced(s@, pat@, rep@),
{
    let mut out: Vec<char> = Vec::new();
    let mut i: usize = 0;
    assert(s@.skip(0) == s@);
    assert(out@ + replaced(s@, pat@, rep@) == replaced(s@, pat@, rep@));
    while i < s.len()
        invariant
            pat@.len() > 0,
            i <= s@.len(),
            out@ + replaced(s@.skip(i as int), pat@, rep@) == replaced(s@, pat@, rep@),
        decreases s@.len() - i,
    {
        let ghost rest = s@.skip(i as int);
        if pat.len() <= s.len() - i && starts_at(s, i, pat) {
            let ghost before = out@;
            let mut k: usize = 0;
            while k < rep.len()
                invariant
                    k <= rep@.len(),
                    out@ == before + rep@.take(k as int),
                decreases rep@.len() - k,
            {
                out.push(rep[k]);
                k = k + 1;
                assert(out@ == before + rep@.take(k as int));
            }
            assert(rep@.take(rep@.len() as int) == rep@);
            assert(rest.skip(pat@.len() as int) == s@.skip(i + pat@.len()));
            assert(before + (rep@ + replaced(rest.skip(pat@.len() as int), pat@, rep@)) == out@ + replaced(
                s@.skip(i + pat@.len()),
                pat@,
                rep@,
            ));
            i = i + pat.len();
        } else {
            let ghost before = out@;
            out.push(s[i]);
            assert(rest.drop_first() == s@.skip(i + 1));
            assert(rest[0] == s@[i as int]);
            proof {
                if rest.len() < pat@.len() {
                    assert(replaced(rest.drop_first(), pat@, rep@) == rest.drop_first());
                    assert(seq![rest[0]] + rest.drop_first() == rest);
                }
            }
            assert(before + (seq![rest[0]] + replaced(rest.drop_first(), pat@, rep@)) == out@ + replaced(
                s@.skip(i + 1),
                pat@,
                rep@,
            ));
            i = i + 1;
        }
    }
    assert(s@.skip(i as int).len() == 0);
    assert(out@ + seq![] == out@);
    out
}

/// `s` with the HTML entities `&amp;`, `&#39;`, `&quot;` and `&nbsp;` decoded, in that
/// order.
pub open spec fn html_decoded(s: Seq<char>) -> Seq<char> {
    replaced(
        replaced(replaced(replaced(s, "&amp;"@, "&"@), "&#39;"@, "'"@), "&quot;"@, "\""@),
        "&nbsp;"@,
        " "@,
    )
}

/// Decodes the HTML entities that IQAir pages use in their labels.
pub fn decode_html(value: &str) -> (r: String)
    ensures
        r@ == html_decoded(value@),
{
    proof {
        reveal_strlit("&amp;");
        reveal_strlit("&#39;");
        reveal_strlit("&quot;");
        reveal_strlit("&nbsp;");
    }
    let s = chars_of(value);
    let a = replace_all(&s, &chars_of("&amp;"), &chars_of("&"));
    let b = replace_all(&a, &chars_of("&#39;"), &chars_of("'"));
    let c = replace_all(&b, &chars_of("&quot;"), &chars_of("\""));
    let d = replace_all(&c, &chars_of("&nbsp;"), &chars_of(" "));
    string_of(&d)
}

// ---------------------------------------------------------------------------
// Integers in text
// ---------------------------------------------------------------------------

/// The text `str::parse::<u16>` gives for a text it rejects.
pub uninterp spec fn u16_parse_error(s: Seq<char>) -> Seq<char>;

/// What `s.parse::<u16>()` accepts: an optional `+` followed by at least one decimal
/// digit and nothing else, with a value that fits.
pub open spec fn u16_value(s: Seq<char>) -> Option<u16> {
    let d = unsigned_digits(s);
    if d.len() > 0 && all_digits(d) && digits_value(d) <= u16::MAX {
        Some(digits_value(d) as u16)
    } else {
        None
    }
}

/// `str::parse::<u16>`, the error as its message. Trusted: a text is accepted exactly
/// when it is an optional `+` followed by decimal digits whose value fits (the standard
/// library's documented grammar), with that value; a rejection's message is named.
#[verifier::external_body]
fn parse_u16(s: &str) -> (r: Result<u16, String>)
    ensures
        match r {
            Ok(v) => u16_value(s@) == Some(v),
            Err(e) => u16_value(s@) is None && e@ == u16_parse_error(s@),
        },
{
    s.parse::<u16>().map_err(|e| e.to_string())
}

// ---------------------------------------------------------------------------
// The IQAir page
// ---------------------------------------------------------------------------

/// The number of bytes of `c` in UTF-8.
pub open spec fn char_width(c: char) -> nat {
    if (c as u32) < 0x80 {
        1
    } else if (c as u32) < 0x800 {
        2
    } else if (c as u32) < 0x1_0000 {
        3
    } else {
        4
    }
}

/// The number of bytes of `s` in UTF-8.
pub open spec fn utf8_len(s: Seq<char>) -> nat
    decreases s.len(),
{
    if s.len() == 0 {
        0
    } else {
        char_width(s[0]) + utf8_len(s.drop_first())
    }
}

proof fn lemma_utf8_len_add(a: Seq<char>, b: Seq<char>)
    ensures
        utf8_len(a + b) == utf8_len(a) + utf8_len(b),
        utf8_len(a) >= a.len(),
    decreases a.len(),
{
    if a.len() == 0 {
        assert(a + b == b);
    } else {
        assert((a + b).drop_first() == a.drop_first() + b);
        lemma_utf8_len_add(a.drop_first(), b);
    }
}

proof fn lemma_utf8_len_split(s: Seq<char>, i: int, j: int, k: int)
    requires
        0 <= i <= j <= k <= s.len(),
    ensures
        utf8_len(s.subrange(i, k)) == utf8_len(s.subrange(i, j)) + utf8_len(s.subrange(j, k)),
        utf8_len(s.subrange(i, j)) >= j - i,
{
    assert(s.subrange(i, k) == s.subrange(i, j) + s.subrange(j, k));
    lemma_utf8_len_add(s.subrange(i, j), s.subrange(j, k));
}

fn utf8_width(c: char) -> (w: usize)
    ensures
        w == char_width(c),
{
    let v = c as u32;
    if v < 0x80 {
        1
    } else if v < 0x800 {
        2
    } else if v < 0x1_0000 {
        3
    } else {
        4
    }
}

/// The characters of `s` with ASCII capitals lowered.
pub open spec fn ascii_lowered(s: Seq<char>) -> Seq<char> {
    s.map_values(|c: char| ascii_lower(c))
}

/// Whether the label "US AQI", in any ASCII case, starts at `i` in `html`.
pub open spec fn label_at(html: Seq<char>, i: int) -> bool {
    0 <= i && i + 6 <= html.len() && ascii_lowered(html.subrange(i, i + 6)) == "us aqi"@
}

/// Where the first "US AQI" label (any ASCII case) of `html` starts.
pub open spec fn aqi_label(html: Seq<char>) -> Option<int> {
    if exists|i: int| label_at(html, i) {
        Some(choose|i: int| label_at(html, i) && forall|j: int| 0 <= j < i ==> !label_at(html, j))
    } else {
        None
    }
}

/// The text in the `AQI_LOOKBEHIND` bytes before `label`: all of it when it is shorter,
/// nothing when that many bytes do not start at a character.
pub open spec fn aqi_window(html: Seq<char>, label: int) -> Option<Seq<char>> {
    if utf8_len(html.take(label)) <= AQI_LOOKBEHIND {
        Some(html.take(label))
    } else if exists|k: int| 0 <= k <= label && utf8_len(html.subrange(k, label)) == AQI_LOOKBEHIND {
        Some(
            html.subrange(
                choose|k: int| 0 <= k <= label && utf8_len(html.subrange(k, label)) == AQI_LOOKBEHIND,
                label,
            ),
        )
    } else {
        None
    }
}

fn find_label(html: &Vec<char>) -> (r: Option<usize>)
    ensures
        match r {
            Some(i) => aqi_label(html@) == Some(i as int) && i + 6 <= html@.len(),
            None => aqi_label(html@) is None,
        },
{
    proof {
        reveal_strlit("us aqi");
    }
    let pattern = chars_of("us aqi");
    assert(pattern@.len() == 6);
    let n = html.len();
    if n < 6 {
        proof {
            assert forall|j: int| !label_at(html@, j) by {}
        }
        return None;
    }
    let mut i: usize = 0;
    while i <= n - 6
        invariant
            n == html@.len(),
            n >= 6,
            pattern@ == "us aqi"@,
            pattern@.len() == 6,
            forall|j: int| 0 <= j < i ==> !label_at(html@, j),
        decreases n - i,
    {
        let mut k: usize = 0;
        let mut same = true;
        while k < 6
            invariant
                i + 6 <= n == html@.len(),
                pattern@ == "us aqi"@,
                pattern@.len() == 6,
                k <= 6,
                same == forall|m: int| 0 <= m < k ==> ascii_lower(#[trigger] html@[i + m]) == pattern@[m],
            decreases 6 - k,
        {
            if to_ascii_lower(html[i + k]) != pattern[k] {
                same = false;
            }
            k = k + 1;
        }
        assert(same == label_at(html@, i as int)) by {
            let low = ascii_lowered(html@.subrange(i as int, i + 6));
            if same {
                assert forall|m: int| 0 <= m < 6 implies low[m] == "us aqi"@[m] by {
                    assert(html@.subrange(i as int, i + 6)[m] == html@[i + m]);
                    assert(ascii_lower(html@[i + m]) == pattern@[m]);
                }
                assert(low =~= "us aqi"@);
            } else {
                let m = choose|m: int| 0 <= m < 6 && ascii_lower(#[trigger] html@[i + m]) != pattern@[m];
                assert(low[m] != "us aqi"@[m]);
            }
        }
        if same {
            proof {
                let c = choose|c: int| label_at(html@, c) && forall|j: int| 0 <= j < c ==> !label_at(html@, j);
                assert(c == i) by {
                    if c < i {
                    } else if c > i {
                        assert(!label_at(html@, i as int));
                    }
                }
            }
            return Some(i);
        }
        i = i + 1;
    }
    proof {
        assert forall|j: int| !label_at(html@, j) by {
            if 0 <= j && j + 6 <= html@.len() {
                assert(j < i);
            }
        }
    }
    None
}

/// Where the window of `AQI_LOOKBEHIND` bytes before `label` starts, or nothing when
/// those bytes do not start at a character.
fn window_start(html: &Vec<char>, label: usize) -> (r: Option<usize>)
    requires
        label <= html@.len(),
    ensures
        match r {
            Some(k) => k <= label && aqi_window(html@, label as int) == Some(html@.subrange(k as int, label as int)),
            None => aqi_window(html@, label as int) is None,
        },
{
    let ghost h = html@;
    let ghost l = label as int;
    let mut k: usize = label;
    let mut bytes: usize = 0;
    assert(h.subrange(l, l).len() == 0);
    while k > 0 && bytes + utf8_width(html[k - 1]) <= AQI_LOOKBEHIND
        invariant
            label <= h.len(),
            h == html@,
            l == label,
            k <= label,
            bytes <= AQI_LOOKBEHIND,
            bytes == utf8_len(h.subrange(k as int, l)),
        decreases k,
    {
        let w = utf8_width(html[k - 1]);
        proof {
            let s = h.subrange(k - 1, l);
            assert(s.drop_first() == h.subrange(k as int, l));
            assert(s[0] == h[k - 1]);
        }
        bytes = bytes + w;
        k = k - 1;
    }
    assert(h.subrange(0, l) == h.take(l));
    if k == 0 {
        return Some(0);
    }
    let w = utf8_width(html[k - 1]);
    proof {
        let s = h.subrange(k - 1, l);
        assert(s.drop_first() == h.subrange(k as int, l));
        assert(utf8_len(s) == w + bytes);
        lemma_utf8_len_split(h, 0, k - 1, l);
    }
    if bytes == AQI_LOOKBEHIND {
        proof {
            let c = choose|c: int| 0 <= c <= l && utf8_len(h.subrange(c, l)) == AQI_LOOKBEHIND;
            assert(c == k) by {
                if c < k {
                    lemma_utf8_len_split(h, c, k as int, l);
                } else if c > k {
                    lemma_utf8_len_split(h, k as int, c, l);
                }
            }
        }
        Some(k)
    } else {
        proof {
            assert forall|c: int| 0 <= c <= l implies utf8_len(#[trigger] h.subrange(c, l)) != AQI_LOOKBEHIND by {
                if c < k {
                    lemma_utf8_len_split(h, c, k - 1, l);
                } else {
                    lemma_utf8_len_split(h, k as int, c, l);
                }
            }
        }
        None
    }
}

/// The number and level of the badge match `caps`, when both groups took part.
pub open spec fn badge_parts(caps: Option<Seq<Option<Seq<char>>>>) -> Option<(Seq<char>, Seq<char>)> {
    match caps {
        Some(g) => if g.len() > 3 && g[2] is Some && g[3] is Some {
            Some((g[2]->0, g[3]->0))
        } else {
            None
        },
        None => None,
    }
}

/// Whether reading the page `html` stays within what the page reader handles: a badge
/// match carries its number and level, and the fallback's window starts at a character
/// and its last number match carries the number.
pub open spec fn air_quality_readable(html: Seq<char>) -> bool {
    let badge = regex_captures(AQI_BADGE@, html);
    if badge is Some {
        badge_parts(badge) is Some
    } else {
        match aqi_label(html) {
            None => true,
            Some(l) => match aqi_window(html, l) {
                None => false,
                Some(w) => {
                    let all = regex_captures_all(AQI_VALUE@, w);
                    all.len() == 0 || (all.last().len() > 1 && all.last()[1] is Some)
                },
            },
        }
    }
}

/// What the IQAir page `html` says of the air. A page with the AQI badge gives the badge's
/// number (an error when it is not a `u16`) and its level, trimmed and with its HTML
/// entities decoded. Otherwise the number is the last one standing alone between tags in
/// the `AQI_LOOKBEHIND` bytes before the first "US AQI" label, with no level.
pub open spec fn air_quality_parsed(html: Seq<char>) -> Result<(u16, Seq<char>), Seq<char>> {
    match badge_parts(regex_captures(AQI_BADGE@, html)) {
        Some((number, level)) => match u16_value(number) {
            Some(v) => Ok((v, html_decoded(trimmed(level)))),
            None => Err(u16_parse_error(number)),
        },
        None => match aqi_label(html) {
            None => Err("US AQI label not found"@),
            Some(l) => {
                let all = regex_captures_all(AQI_VALUE@, aqi_window(html, l)->0);
                if all.len() > 0 && u16_value(all.last()[1]->0) is Some {
                    Ok((u16_value(all.last()[1]->0)->0, seq![]))
                } else {
                    Err("AQI value not found"@)
                }
            },
        },
    }
}

fn read_air_quality(html: &str) -> (r: Option<Result<AirQualityData, String>>)
    ensures
        r is Some <==> air_quality_readable(html@),
        r matches Some(res) ==> match res {
            Ok(d) => air_quality_parsed(html@) == Ok::<(u16, Seq<char>), Seq<char>>((d.aqi, d.level@)),
            Err(e) => air_quality_parsed(html@) == Err::<(u16, Seq<char>), Seq<char>>(e@),
        },
{
    proof {
        reveal_strlit("US AQI label not found");
        reveal_strlit("AQI value not found");
    }
    match captures(AQI_BADGE, html) {
        Some(groups) => {
            if groups.len() > 3 {
                match (&groups[2], &groups[3]) {
                    (Some(number), Some(level)) => {
                        let aqi = match parse_u16(number.as_str()) {
                            Ok(v) => v,
                            Err(e) => {
                                return Some(Err(e));
                            },
                        };
                        let level = decode_html(trim_str(level.as_str()).as_str());
                        return Some(Ok(AirQualityData { aqi, level }));
                    },
                    _ => {
                        return None;
                    },
                }
            }
            return None;
        },
        None => {},
    }
    let chars = chars_of(html);
    let label = match find_label(&chars) {
        Some(l) => l,
        None => {
            return Some(Err(owned_text("US AQI label not found")));
        },
    };
    let start = match window_start(&chars, label) {
        Some(k) => k,
        None => {
            return None;
        },
    };
    let mut window = String::new();
    let mut m: usize = start;
    while m < label
        invariant
            start <= m <= label <= chars@.len(),
            window@ == chars@.subrange(start as int, m as int),
        decreases label - m,
    {
        crate::text::push_char(&mut window, chars[m]);
        m = m + 1;
        assert(window@ == chars@.subrange(start as int, m as int));
    }
    let all = captures_all(AQI_VALUE, window.as_str());
    proof {
        let views = all@.map_values(|c: Vec<Option<String>>| group_texts(c@));
        if all@.len() > 0 {
            assert(views.last() == group_texts(all@.last()@));
        }
    }
    if all.len() == 0 {
        return Some(Err(owned_text("AQI value not found")));
    }
    let last = &all[all.len() - 1];
    if last.len() < 2 {
        return None;
    }
    match &last[1] {
        Some(number) => match parse_u16(number.as_str()) {
            Ok(v) => Some(Ok(AirQualityData { aqi: v, level: String::new() })),
            Err(_) => Some(Err(owned_text("AQI value not found"))),
        },
        None => None,
    }
}

/// Reads the air quality off an IQAir page (see `air_quality_parsed`).
pub fn parse_air_quality(html: &str) -> (r: Result<AirQualityData, String>)
    requires
        air_quality_readable(html@),
    ensures
        match r {
            Ok(d) => air_quality_parsed(html@) == Ok::<(u16, Seq<char>), Seq<char>>((d.aqi, d.level@)),
            Err(e) => air_quality_parsed(html@) == Err::<(u16, Seq<char>), Seq<char>>(e@),
        },
{
    match read_air_quality(html) {
        Some(r) => r,
        None => Err(String::new()),
    }
}

/// Reads the air quality off an IQAir page; nothing when the page is one the reader does
/// not handle (see `air_quality_readable`).
pub fn try_parse_air_quality(html: &str) -> (r: Option<Result<AirQualityData, String>>)
    ensures
        r is Some <==> air_quality_readable(html@),
        r matches Some(res) ==> match res {
            Ok(d) => air_quality_parsed(html@) == Ok::<(u16, Seq<char>), Seq<char>>((d.aqi, d.level@)),
            Err(e) => air_quality_parsed(html@) == Err::<(u16, Seq<char>), Seq<char>>(e@),
        },
{
    if read_air_quality(html).is_some() {
        Some(parse_air_quality(html))
    } else {
        None
    }
}

fn owned_text(t: &str) -> (s: String)
    ensures
        s@ == t@,
{
    crate::text::owned(t)
}

// ---------------------------------------------------------------------------
// Request settings
// ---------------------------------------------------------------------------

/// `char::is_ascii_alphabetic`.
pub open spec fn ascii_alphabetic(c: char) -> bool {
    ('A' <= c <= 'Z') || ('a' <= c <= 'z')
}

/// `char::is_ascii_alphanumeric`.
pub open spec fn ascii_alphanumeric(c: char) -> bool {
    ascii_alphabetic(c) || ('0' <= c <= '9')
}

/// The currency codes a currency widget asks for: its `from` and `to` settings (USD and
/// THB when unset), upper-cased.
pub open spec fn currency_codes(settings: SettingsValue) -> (Seq<char>, Seq<char>) {
    (
        uppercase(setting_string_spec(settings, "from"@, "USD"@)),
        uppercase(setting_string_spec(settings, "to"@, "THB"@)),
    )
}

fn all_alphabetic(s: &Vec<char>) -> (r: bool)
    ensures
        r == forall|i: int| 0 <= i < s@.len() ==> ascii_alphabetic(#[trigger] s@[i]),
{
    let mut i: usize = 0;
    while i < s.len()
        invariant
            i <= s@.len(),
            forall|j: int| 0 <= j < i ==> ascii_alphabetic(#[trigger] s@[j]),
        decreases s@.len() - i,
    {
        let c = s[i];
        if !(('A' <= c && c <= 'Z') || ('a' <= c && c <= 'z')) {
            return false;
        }
        i = i + 1;
    }
    true
}

/// The pair a currency widget quotes, such as `USDTHB`: its two codes joined. An error
/// when either code holds anything but ASCII letters, before any request is made.
pub fn currency_pair(settings: &SettingsValue) -> (r: Result<String, String>)
    ensures
        ({
            let (from, to) = currency_codes(*settings);
            let valid = (forall|i: int| 0 <= i < from.len() ==> ascii_alphabetic(#[trigger] from[i]))
                && (forall|i: int| 0 <= i < to.len() ==> ascii_alphabetic(#[trigger] to[i]));
            match r {
                Ok(pair) => valid && pair@ == from + to,
                Err(e) => !valid && e@ == "invalid currency pair"@,
            }
        }),
{
    let from = to_uppercase(setting_string(settings, "from", "USD").as_str());
    let to = to_uppercase(setting_string(settings, "to", "THB").as_str());
    let fc = chars_of(from.as_str());
    let tc = chars_of(to.as_str());
    if !all_alphabetic(&fc) || !all_alphabetic(&tc) {
        let e = owned_text("invalid currency pair");
        assert(fc@ == currency_codes(*settings).0);
        assert(tc@ == currency_codes(*settings).1);
        assert(e@ == "invalid currency pair"@);
        return Err(e);
    }
    let mut pair = from;
    crate::text::push_str(&mut pair, to.as_str());
    Ok(pair)
}

/// Whether `c` may stand in a stock symbol: an ASCII letter or digit, or one of `.^-=`.
pub open spec fn symbol_char(c: char) -> bool {
    ascii_alphanumeric(c) || c == '.' || c == '^' || c == '-' || c == '='
}

/// The symbol a stock widget asks for: its `symbol` setting (AAPL when unset),
/// upper-cased.
pub open spec fn stock_symbol_text(settings: SettingsValue) -> Seq<char> {
    uppercase(setting_string_spec(settings, "symbol"@, "AAPL"@))
}

proof fn lemma_symbol_bytes(s: Seq<char>)
    requires
        forall|i: int| 0 <= i < s.len() ==> symbol_char(#[trigger] s[i]),
    ensures
        utf8_len(s) == s.len(),
    decreases s.len(),
{
    if s.len() > 0 {
        assert(symbol_char(s[0]));
        assert forall|i: int| 0 <= i < s.drop_first().len() implies symbol_char(#[trigger] s.drop_first()[i]) by {
            assert(s.drop_first()[i] == s[i + 1]);
        }
        lemma_symbol_bytes(s.drop_first());
    }
}

/// The symbol a stock widget quotes. An error when it is longer than 24 bytes or holds
/// anything but ASCII letters, digits and `.^-=`, before any request is made.
pub fn stock_symbol(settings: &SettingsValue) -> (r: Result<String, String>)
    ensures
        ({
            let sym = stock_symbol_text(*settings);
            let valid = utf8_len(sym) <= 24 && forall|i: int| 0 <= i < sym.len() ==> symbol_char(#[trigger] sym[i]);
            match r {
                Ok(s) => valid && s@ == sym,
                Err(e) => !valid && e@ == "invalid stock symbol"@,
            }
        }),
{
    let symbol = to_uppercase(setting_string(settings, "symbol", "AAPL").as_str());
    let sc = chars_of(symbol.as_str());
    let mut i: usize = 0;
    while i < sc.len()
        invariant
            i <= sc@.len(),
            sc@ == stock_symbol_text(*settings),
            forall|j: int| 0 <= j < i ==> symbol_char(#[trigger] sc@[j]),
        decreases sc@.len() - i,
    {
        let c = sc[i];
        let ok = ('A' <= c && c <= 'Z') || ('a' <= c && c <= 'z') || ('0' <= c && c <= '9') || c == '.' || c
            == '^' || c == '-' || c == '=';
        if !ok {
            assert(!symbol_char(sc@[i as int]));
            return Err(owned_text("invalid stock symbol"));
        }
        i = i + 1;
    }
    proof {
        lemma_symbol_bytes(sc@);
    }
    if sc.len() > 24 {
        return Err(owned_text("invalid stock symbol"));
    }
    Ok(symbol)
}

/// What `url::Url::parse` makes of `input`: the scheme, host, serialisation and path of
/// the URL, or the text of the parse error.
pub uninterp spec fn url_parse(input: Seq<char>) -> Result<(Seq<char>, Option<Seq<char>>, Seq<char>, Seq<char>), Seq<char>>;

/// The view of an optional string.
pub open spec fn opt_view(o: Option<String>) -> Option<Seq<char>> {
    match o {
        Some(s) => Some(s@),
        None => None,
    }
}

/// Parses `input` with `url::Url::parse` (re-exported by reqwest) and returns the URL's
/// scheme, host, text and path, or the error's text. Trusted: the result is `url_parse`
/// of the input.
#[verifier::external_body]
fn parse_url(input: &str) -> (r: Result<(String, Option<String>, String, String), String>)
    ensures
        match r {
            Ok((scheme, host, text, path)) => url_parse(input@) == Ok::<(Seq<char>, Option<Seq<char>>, Seq<char>, Seq<char>), Seq<char>>(
                (scheme@, opt_view(host), text@, path@),
            ),
            Err(e) => url_parse(input@) == Err::<(Seq<char>, Option<Seq<char>>, Seq<char>, Seq<char>), Seq<char>>(e@),
        },
{
    match reqwest::Url::parse(input) {
        Ok(url) => Ok((
            url.scheme().to_string(),
            url.host_str().map(|h| h.to_string()),
            url.as_str().to_string(),
            url.path().to_string(),
        )),
        Err(e) => Err(e.to_string()),
    }
}

/// Whether `host`, lower-cased, is `iqair.com` or one of its subdomains.
pub open spec fn iqair_host(host: Option<Seq<char>>) -> bool {
    let h = ascii_lowered(
        match host {
            Some(h) => h,
            None => seq![],
        },
    );
    h == "iqair.com"@ || (h.len() >= 10 && h.skip(h.len() - 10) == ".iqair.com"@)
}

/// The IQAir page an air-quality widget reads: its `url` setting (the default page when
/// unset), taken as given or else with `https://` before it; an error unless the URL
/// parses and is an HTTPS address on iqair.com. With the address comes the place the
/// page is about (see `location_name_spec`), read from the URL's path.
pub open spec fn iqair_page_spec(settings: SettingsValue) -> Result<(Seq<char>, Seq<char>), Seq<char>> {
    let value = setting_string_spec(settings, "url"@, DEFAULT_AQI_URL@);
    let parsed = match url_parse(value) {
        Ok(p) => Ok(p),
        Err(_) => url_parse("https://"@ + value),
    };
    match parsed {
        Err(e) => Err(e),
        Ok((scheme, host, text, path)) => if scheme == "https"@ && iqair_host(host) {
            Ok((text, location_name_spec(path)))
        } else {
            Err("only HTTPS IQAir location URLs are allowed"@)
        },
    }
}

/// The address of the IQAir page an air-quality widget reads (see `iqair_page_spec`).
pub open spec fn iqair_location(settings: SettingsValue) -> Result<Seq<char>, Seq<char>> {
    match iqair_page_spec(settings) {
        Ok(page) => Ok(page.0),
        Err(e) => Err(e),
    }
}

fn ends_with_chars(s: &Vec<char>, tail: &Vec<char>) -> (r: bool)
    ensures
        r == (s@.len() >= tail@.len() && s@.skip(s@.len() - tail@.len()) == tail@),
{
    if s.len() < tail.len() {
        return false;
    }
    let n = s.len();
    let off = n - tail.len();
    let mut j: usize = 0;
    while j < tail.len()
        invariant
            n == s@.len(),
            off + tail@.len() == s@.len(),
            j <= tail@.len(),
            forall|m: int| 0 <= m < j ==> s@[off + m] == tail@[m],
        decreases tail@.len() - j,
    {
        if s[off + j] != tail[j] {
            assert(s@.skip(off as int)[j as int] != tail@[j as int]);
            return false;
        }
        j = j + 1;
    }
    assert(s@.skip(off as int) =~= tail@);
    true
}

/// The address of the IQAir page an air-quality widget reads (see `iqair_location`).
pub fn iqair_url(settings: &SettingsValue) -> (r: Result<String, String>)
    ensures
        match r {
            Ok(u) => iqair_location(*settings) == Ok::<Seq<char>, Seq<char>>(u@),
            Err(e) => iqair_location(*settings) == Err::<Seq<char>, Seq<char>>(e@),
        },
{
    match iqair_page(settings) {
        Ok((address, _)) => Ok(address),
        Err(e) => Err(e),
    }
}

/// The IQAir page an air-quality widget reads and the place it is about, the name the
/// fallback source looks up (see `iqair_page_spec`).
pub fn iqair_page(settings: &SettingsValue) -> (r: Result<(String, String), String>)
    ensures
        match r {
            Ok((address, place)) => iqair_page_spec(*settings) == Ok::<(Seq<char>, Seq<char>), Seq<char>>((address@, place@)),
            Err(e) => iqair_page_spec(*settings) == Err::<(Seq<char>, Seq<char>), Seq<char>>(e@),
        },
{
    proof {
        reveal_strlit("https");
        reveal_strlit("iqair.com");
        reveal_strlit(".iqair.com");
    }
    let value = setting_string(settings, "url", DEFAULT_AQI_URL);
    let parsed = match parse_url(value.as_str()) {
        Ok(p) => p,
        Err(_) => {
            let mut prefixed = owned_text("https://");
            crate::text::push_str(&mut prefixed, value.as_str());
            match parse_url(prefixed.as_str()) {
                Ok(p) => p,
                Err(e) => {
                    return Err(e);
                },
            }
        },
    };
    let (scheme, host, text, path) = parsed;
    let raw = match &host {
        Some(h) => chars_of(h.as_str()),
        None => Vec::new(),
    };
    let mut low: Vec<char> = Vec::new();
    let mut i: usize = 0;
    while i < raw.len()
        invariant
            i <= raw@.len(),
            low@ == ascii_lowered(raw@.take(i as int)),
        decreases raw@.len() - i,
    {
        low.push(to_ascii_lower(raw[i]));
        i = i + 1;
        assert(low@ =~= ascii_lowered(raw@.take(i as int)));
    }
    assert(raw@.take(raw@.len() as int) == raw@);
    let https = crate::text::eq_chars_str(&chars_of(scheme.as_str()), "https");
    let allowed = crate::text::eq_chars_str(&low, "iqair.com") || ends_with_chars(&low, &chars_of(".iqair.com"));
    if https && allowed {
        Ok((text, location_name(path.as_str())))
    } else {
        Err(owned_text("only HTTPS IQAir location URLs are allowed"))
    }
}

// ---------------------------------------------------------------------------
// The fallback source
// ---------------------------------------------------------------------------

/// `p` without the slashes it ends with.
pub open spec fn without_trailing_slashes(p: Seq<char>) -> Seq<char>
    decreases p.len(),
{
    if p.len() > 0 && p.last() == '/' {
        without_trailing_slashes(p.drop_last())
    } else {
        p
    }
}

/// What follows the last slash of `p` (all of `p` when it has none).
pub open spec fn after_last_slash(p: Seq<char>) -> Seq<char>
    decreases p.len(),
{
    if p.len() == 0 || p.last() == '/' {
        seq![]
    } else {
        after_last_slash(p.drop_last()).push(p.last())
    }
}

/// The place an IQAir page is about: the last non-empty segment of its path (Bangkok
/// when there is none), with dashes as spaces.
pub open spec fn location_name_spec(path: Seq<char>) -> Seq<char> {
    let segment = after_last_slash(without_trailing_slashes(path));
    let name = if segment.len() == 0 {
        "Bangkok"@
    } else {
        segment
    };
    name.map_values(|c: char| if c == '-' { ' ' } else { c })
}

/// The place name the fallback air-quality source looks up for an IQAir page's path.
pub fn location_name(path: &str) -> (r: String)
    ensures
        r@ == location_name_spec(path@),
{
    let p = chars_of(path);
    let mut end: usize = p.len();
    assert(p@.take(p@.len() as int) == p@);
    while end > 0 && p[end - 1] == '/'
        invariant
            end <= p@.len(),
            without_trailing_slashes(p@) == without_trailing_slashes(p@.take(end as int)),
        decreases end,
    {
        assert(p@.take(end as int).drop_last() == p@.take(end - 1));
        end = end - 1;
    }
    let ghost q = p@.take(end as int);
    assert(end == 0 || q.last() != '/');
    assert(without_trailing_slashes(q) == q);
    let mut start: usize = end;
    while start > 0 && p[start - 1] != '/'
        invariant
            start <= end <= p@.len(),
            q == p@.take(end as int),
            after_last_slash(q) == after_last_slash(p@.take(start as int)) + p@.subrange(start as int, end as int),
        decreases start,
    {
        let ghost t = p@.take(start as int);
        assert(t.drop_last() == p@.take(start - 1));
        assert(t.last() == p@[start - 1]);
        assert(p@.subrange(start - 1, end as int) == seq![p@[start - 1]] + p@.subrange(start as int, end as int));
        assert(after_last_slash(t) == after_last_slash(p@.take(start - 1)).push(p@[start - 1]));
        start = start - 1;
    }
    assert(after_last_slash(p@.take(start as int)) == Seq::<char>::empty()) by {
        if start > 0 {
            assert(p@.take(start as int).last() == p@[start - 1]);
        }
    }
    let ghost segment = p@.subrange(start as int, end as int);
    let mut out: Vec<char> = Vec::new();
    proof {
        reveal_strlit("Bangkok");
    }
    let source = if start == end { chars_of("Bangkok") } else {
        let mut v: Vec<char> = Vec::new();
        let mut i: usize = start;
        while i < end
            invariant
                start <= i <= end <= p@.len(),
                v@ == p@.subrange(start as int, i as int),
            decreases end - i,
        {
            v.push(p[i]);
            i = i + 1;
            assert(v@ == p@.subrange(start as int, i as int));
        }
        v
    };
    assert(source@ == if segment.len() == 0 { "Bangkok"@ } else { segment });
    let mut k: usize = 0;
    while k < source.len()
        invariant
            k <= source@.len(),
            out@ == source@.take(k as int).map_values(|c: char| if c == '-' { ' ' } else { c }),
        decreases source@.len() - k,
    {
        let c = source[k];
        out.push(if c == '-' { ' ' } else { c });
        k = k + 1;
        assert(out@ =~= source@.take(k as int).map_values(|c: char| if c == '-' { ' ' } else { c }));
    }
    assert(source@.take(source@.len() as int) == source@);
    string_of(&out)
}


// ---------------------------------------------------------------------------
// Yahoo Finance chart requests
// ---------------------------------------------------------------------------

/// `urlencoding::encode`. Its source percent-encodes the UTF-8 bytes of the text, byte
/// by byte, keeping ASCII letters, digits and `-`, `.`, `_`, `~` as they are and writing
/// every other byte as `%` and two upper-case hex digits: the rule `percent_encoded`
/// states.
#[verifier::external_body]
fn url_component(text: &str) -> (r: String)
    ensures
        r@ == percent_encoded(text.spec_bytes()),
{
    urlencoding::encode(text).into_owned()
}

/// The Yahoo Finance chart address on `host` for a symbol, with its candle interval and
/// range; the symbol is percent-encoded.
pub open spec fn yahoo_chart_url_spec(host: Seq<char>, symbol: Seq<char>, interval: Seq<char>, range: Seq<char>) -> Seq<char> {
    "https://"@ + host + "/v8/finance/chart/"@ + percent_encoded(vstd::utf8::encode_utf8(symbol))
        + "?interval="@ + interval + "&range="@ + range
}

/// The Yahoo Finance chart address on `host` for `symbol` (see `yahoo_chart_url_spec`).
pub fn yahoo_chart_url(host: &str, symbol: &str, interval: &str, range: &str) -> (r: String)
    ensures
        r@ == yahoo_chart_url_spec(host@, symbol@, interval@, range@),
{
    let encoded = url_component(symbol);
    let mut url = String::new();
    push_str(&mut url, "https://");
    push_str(&mut url, host);
    push_str(&mut url, "/v8/finance/chart/");
    push_str(&mut url, encoded.as_str());
    push_str(&mut url, "?interval=");
    push_str(&mut url, interval);
    push_str(&mut url, "&range=");
    push_str(&mut url, range);
    url
}

} // verus!

//! Action settings as the Stream Deck host sends them: a JSON value, held here as plain
//! data, with the lookups the actions make on it.

use vstd::prelude::*;
use crate::text::{eq_chars, chars_of, string_of, trim_chars, trimmed, owned};

verus! {

broadcast use vstd::string::group_string_axioms;

/// A JSON number as the host sends it: a non-negative integer, a negative integer, or a
/// number with a fractional part or exponent (whose value no lookup here reads).
pub enum SettingsNumber {
    PosInt(u64),
    NegInt(i64),
    Float,
}

/// A JSON value. An object keeps its members in order, each key once.
pub enum SettingsValue {
    Null,
    Bool(bool),
    Number(SettingsNumber),
    String(String),
    Array(Vec<SettingsValue>),
    Object(Vec<(String, SettingsValue)>),
}

/// The member `key` of an object's members (the first with that key).
pub open spec fn member(entries: Seq<(String, SettingsValue)>, key: Seq<char>) -> Option<SettingsValue>
    decreases entries.len(),
{
    if entries.len() == 0 {
        None
    } else if entries[0].0@ == key {
        Some(entries[0].1)
    } else {
        member(entries.drop_first(), key)
    }
}

/// The setting `key`: the member of that name when the settings are an object.
pub open spec fn setting(settings: SettingsValue, key: Seq<char>) -> Option<SettingsValue> {
    match settings {
        SettingsValue::Object(entries) => member(entries@, key),
        _ => None,
    }
}

/// The text of the setting `key`, when it is a string.
pub open spec fn setting_text(settings: SettingsValue, key: Seq<char>) -> Option<Seq<char>> {
    match setting(settings, key) {
        Some(SettingsValue::String(s)) => Some(s@),
        _ => None,
    }
}

/// `serde_json`'s `as_u64` on a number.
pub open spec fn number_as_u64(n: SettingsNumber) -> Option<u64> {
    match n {
        SettingsNumber::PosInt(v) => Some(v),
        _ => None,
    }
}

/// `serde_json`'s `as_i64` on a number.
pub open spec fn number_as_i64(n: SettingsNumber) -> Option<i64> {
    match n {
        SettingsNumber::PosInt(v) => if v <= i64::MAX {
            Some(v as i64)
        } else {
            None
        },
        SettingsNumber::NegInt(v) => Some(v),
        SettingsNumber::Float => None,
    }
}

// ---------------------------------------------------------------------------
// Integer parsing (u64::from_str, i64::from_str)
// ---------------------------------------------------------------------------

pub open spec fn is_digit(c: char) -> bool {
    '0' <= c <= '9'
}

pub open spec fn all_digits(s: Seq<char>) -> bool {
    forall|i: int| 0 <= i < s.len() ==> is_digit(#[trigger] s[i])
}

/// The value of a string of decimal digits.
pub open spec fn digits_value(s: Seq<char>) -> nat
    decreases s.len(),
{
    if s.len() == 0 {
        0
    } else {
        digits_value(s.drop_last()) * 10 + ((s.last() as u32) - 48) as nat
    }
}

/// The digits of an unsigned numeral: what follows an optional leading `+`.
pub open spec fn unsigned_digits(s: Seq<char>) -> Seq<char> {
    if s.len() > 0 && s[0] == '+' {
        s.drop_first()
    } else {
        s
    }
}

/// Whether `d` is a non-empty string of digits whose value is at most `limit`.
pub open spec fn numeral_within(d: Seq<char>, limit: nat) -> bool {
    d.len() > 0 && all_digits(d) && digits_value(d) <= limit
}

/// What `s.parse::<u64>()` gives: an optional `+` followed by at least one digit, with
/// no other characters, and a value that fits.
pub open spec fn parse_u64_spec(s: Seq<char>) -> Option<u64> {
    let d = unsigned_digits(s);
    if numeral_within(d, u64::MAX as nat) {
        Some(digits_value(d) as u64)
    } else {
        None
    }
}

/// What `s.parse::<i64>()` gives: an optional sign followed by at least one digit, with
/// no other characters, and a value that fits.
pub open spec fn parse_i64_spec(s: Seq<char>) -> Option<i64> {
    if s.len() > 0 && s[0] == '-' {
        let d = s.drop_first();
        if numeral_within(d, 0x8000_0000_0000_0000nat) {
            Some((0 - digits_value(d)) as i64)
        } else {
            None
        }
    } else {
        let d = unsigned_digits(s);
        if numeral_within(d, i64::MAX as nat) {
            Some(digits_value(d) as i64)
        } else {
            None
        }
    }
}

proof fn lemma_digits_prefix(s: Seq<char>, k: int)
    requires
        0 <= k <= s.len(),
    ensures
        digits_value(s.take(k)) <= digits_value(s),
    decreases s.len(),
{
    if k < s.len() {
        lemma_digits_prefix(s.drop_last(), k);
        assert(s.drop_last().take(k) == s.take(k));
    } else {
        assert(s.take(k) == s);
    }
}

/// The value of the digits `s[start..]` when they are all digits, at least one, and the
/// value is at most `limit`.
fn digits_within(s: &Vec<char>, start: usize, limit: u64) -> (r: Option<u64>)
    requires
        start <= s@.len(),
    ensures
        match r {
            Some(v) => numeral_within(s@.skip(start as int), limit as nat) && v == digits_value(
                s@.skip(start as int),
            ),
            None => !numeral_within(s@.skip(start as int), limit as nat),
        },
{
    let ghost d = s@.skip(start as int);
    let n = s.len();
    if start == n {
        return None;
    }
    let mut acc: u64 = 0;
    let mut i: usize = start;
    while i < n
        invariant
            start <= i <= n == s@.len(),
            d == s@.skip(start as int),
            acc as nat == digits_value(d.take(i - start)),
            acc <= limit,
            all_digits(d.take(i - start)),
        decreases n - i,
    {
        let c = s[i];
        proof {
            assert(d.take(i - start + 1).drop_last() == d.take(i - start));
            assert(d.take(i - start + 1).last() == c);
        }
        if !('0' <= c && c <= '9') {
            proof {
                assert(!is_digit(d[i - start]));
            }
            return None;
        }
        let v = (c as u32 - 48) as u64;
        if v > limit {
            proof {
                lemma_digits_prefix(d, i - start + 1);
            }
            return None;
        }
        if acc > (limit - v) / 10 {
            proof {
                assert(acc * 10 + v > limit) by (nonlinear_arith)
                    requires acc > (limit - v) / 10, v <= limit;
                lemma_digits_prefix(d, i - start + 1);
            }
            return None;
        }
        proof {
            assert(acc * 10 + v <= limit) by (nonlinear_arith)
                requires acc <= (limit - v) / 10, v <= limit;
            assert forall|j: int| 0 <= j < i - start + 1 implies is_digit(#[trigger] d.take(i - start + 1)[j]) by {
                if j < i - start {
                    assert(d.take(i - start + 1)[j] == d.take(i - start)[j]);
                }
            }
        }
        acc = acc * 10 + v;
        i = i + 1;
    }
    assert(d.take(n - start) == d);
    Some(acc)
}

/// `s.parse::<u64>().ok()`.
pub fn parse_u64(s: &Vec<char>) -> (r: Option<u64>)
    ensures
        r == parse_u64_spec(s@),
{
    let start: usize = if s.len() > 0 && s[0] == '+' { 1 } else { 0 };
    proof {
        if start == 1 {
            assert(s@.skip(1) == s@.drop_first());
        } else {
            assert(s@.skip(0) == s@);
        }
    }
    digits_within(s, start, u64::MAX)
}

/// `s.parse::<i64>().ok()`.
pub fn parse_i64(s: &Vec<char>) -> (r: Option<i64>)
    ensures
        r == parse_i64_spec(s@),
{
    if s.len() > 0 && s[0] == '-' {
        assert(s@.skip(1) == s@.drop_first());
        match digits_within(s, 1, 0x8000_0000_0000_0000u64) {
            Some(v) => {
                if v == 0x8000_0000_0000_0000u64 {
                    Some(i64::MIN)
                } else {
                    Some(0 - (v as i64))
                }
            },
            None => None,
        }
    } else {
        let start: usize = if s.len() > 0 && s[0] == '+' { 1 } else { 0 };
        proof {
            if start == 1 {
                assert(s@.skip(1) == s@.drop_first());
            } else {
                assert(s@.skip(0) == s@);
            }
        }
        match digits_within(s, start, i64::MAX as u64) {
            Some(v) => Some(v as i64),
            None => None,
        }
    }
}

// ---------------------------------------------------------------------------
// Lookups
// ---------------------------------------------------------------------------

/// The setting `key` of `settings` (`settings.as_object().and_then(|m| m.get(key))`).
pub fn setting_value<'a>(settings: &'a SettingsValue, key: &str) -> (r: Option<&'a SettingsValue>)
    ensures
        match r {
            Some(v) => setting(*settings, key@) == Some(*v),
            None => setting(*settings, key@) is None,
        },
{
    match settings {
        SettingsValue::Object(entries) => {
            let k = chars_of(key);
            let mut i: usize = 0;
            assert(entries@.skip(0) == entries@);
            while i < entries.len()
                invariant
                    i <= entries@.len(),
                    k@ == key@,
                    member(entries@, key@) == member(entries@.skip(i as int), key@),
                    setting(*settings, key@) == member(entries@, key@),
                decreases entries@.len() - i,
            {
                let name = chars_of(entries[i].0.as_str());
                proof {
                    assert(entries@.skip(i as int).drop_first() == entries@.skip(i + 1));
                    assert(entries@.skip(i as int)[0] == entries@[i as int]);
                }
                if eq_chars(&name, &k) {
                    proof {
                        let rest = entries@.skip(i as int);
                        assert(rest.len() > 0);
                        assert(rest[0] == entries@[i as int]);
                        assert(rest[0].0@ == key@);
                        assert(member(rest, key@) == Some(rest[0].1));
                        assert(member(entries@, key@) == Some(entries@[i as int].1));
                    }
                    return Some(&entries[i].1);
                }
                i = i + 1;
            }
            None
        },
        _ => None,
    }
}

/// The trimmed text of the setting `key` when it is a non-blank string, else `fallback`.
pub open spec fn setting_string_spec(settings: SettingsValue, key: Seq<char>, fallback: Seq<char>) -> Seq<char> {
    match setting_text(settings, key) {
        Some(t) => if trimmed(t).len() > 0 {
            trimmed(t)
        } else {
            fallback
        },
        None => fallback,
    }
}

/// A string setting, trimmed, or `fallback` when it is missing, not a string or blank.
pub fn setting_string(settings: &SettingsValue, key: &str, fallback: &str) -> (r: String)
    ensures
        r@ == setting_string_spec(*settings, key@, fallback@),
{
    match setting_value(settings, key) {
        Some(SettingsValue::String(s)) => {
            let t = trim_chars(&chars_of(s.as_str()));
            if t.len() > 0 {
                string_of(&t)
            } else {
                owned(fallback)
            }
        },
        _ => owned(fallback),
    }
}

/// The unsigned integer the setting `key` holds: a number that `as_u64` accepts, or a
/// string that parses as one once trimmed.
pub open spec fn setting_u64_opt(settings: SettingsValue, key: Seq<char>) -> Option<u64> {
    match setting(settings, key) {
        Some(SettingsValue::Number(n)) => number_as_u64(n),
        Some(SettingsValue::String(s)) => parse_u64_spec(trimmed(s@)),
        _ => None,
    }
}

/// The signed integer the setting `key` holds: a number that `as_i64` accepts, or a
/// string that parses as one once trimmed.
pub open spec fn setting_i64_opt(settings: SettingsValue, key: Seq<char>) -> Option<i64> {
    match setting(settings, key) {
        Some(SettingsValue::Number(n)) => number_as_i64(n),
        Some(SettingsValue::String(s)) => parse_i64_spec(trimmed(s@)),
        _ => None,
    }
}

/// An unsigned integer setting, or `fallback`.
pub fn setting_u64(settings: &SettingsValue, key: &str, fallback: u64) -> (r: u64)
    ensures
        r == match setting_u64_opt(*settings, key@) {
            Some(v) => v,
            None => fallback,
        },
{
    let parsed = match setting_value(settings, key) {
        Some(SettingsValue::Number(SettingsNumber::PosInt(v))) => Some(*v),
        Some(SettingsValue::String(s)) => parse_u64(&trim_chars(&chars_of(s.as_str()))),
        _ => None,
    };
    match parsed {
        Some(v) => v,
        None => fallback,
    }
}

/// A signed integer setting, or `fallback`.
pub fn setting_i64(settings: &SettingsValue, key: &str, fallback: i64) -> (r: i64)
    ensures
        r == match setting_i64_opt(*settings, key@) {
            Some(v) => v,
            None => fallback,
        },
{
    let parsed = match setting_value(settings, key) {
        Some(SettingsValue::Number(SettingsNumber::PosInt(v))) => {
            if *v <= i64::MAX as u64 {
                Some(*v as i64)
            } else {
                None
            }
        },
        Some(SettingsValue::Number(SettingsNumber::NegInt(v))) => Some(*v),
        Some(SettingsValue::String(s)) => parse_i64(&trim_chars(&chars_of(s.as_str()))),
        _ => None,
    };
    match parsed {
        Some(v) => v,
        None => fallback,
    }
}

} // verus!

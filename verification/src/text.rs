//! Character-level string helpers shared by the renderers and parsers.

use vstd::prelude::*;

verus! {

broadcast use vstd::string::group_string_axioms;

/// Appends one character to a `String` (std's `String::push`).
#[verifier::external_body]
pub(crate) fn push_char(s: &mut String, c: char)
    ensures
        final(s)@ == old(s)@.push(c),
{
    s.push(c);
}

/// Appends the characters of `t` to `s`.
pub fn push_str(s: &mut String, t: &str)
    ensures
        final(s)@ == old(s)@ + t@,
{
    let ghost start = s@;
    for c in it: t.chars()
        invariant
            s@ == start + it.seq().take(it.index() as int),
            it.seq() == t@,
    {
        proof {
            assert(it.seq().take(it.index() + 1) == it.seq().take(it.index() as int).push(c));
        }
        push_char(s, c);
    }
    assert(t@.take(t@.len() as int) == t@);
}

/// Appends the characters of `t` to `s`.
pub fn push_chars(s: &mut String, t: &Vec<char>)
    ensures
        final(s)@ == old(s)@ + t@,
{
    let ghost start = s@;
    let mut i: usize = 0;
    while i < t.len()
        invariant
            i <= t.len(),
            s@ == start + t@.take(i as int),
        decreases t.len() - i,
    {
        assert(t@.take(i + 1) == t@.take(i as int).push(t@[i as int]));
        push_char(s, t[i]);
        i = i + 1;
    }
    assert(t@.take(t@.len() as int) == t@);
}

/// The characters of `s` as a vector.
pub fn chars_of(s: &str) -> (v: Vec<char>)
    ensures
        v@ == s@,
{
    let mut v: Vec<char> = Vec::new();
    for c in it: s.chars()
        invariant
            v@ == it.seq().take(it.index() as int),
            it.seq() == s@,
    {
        proof {
            assert(it.seq().take(it.index() + 1) == it.seq().take(it.index() as int).push(c));
        }
        v.push(c);
    }
    assert(s@.take(s@.len() as int) == s@);
    v
}

/// A `String` holding exactly the characters `t`.
pub fn string_of(t: &Vec<char>) -> (s: String)
    ensures
        s@ == t@,
{
    let mut s = String::new();
    push_chars(&mut s, t);
    s
}

/// A `String` holding exactly the characters of `t`.
pub fn owned(t: &str) -> (s: String)
    ensures
        s@ == t@,
{
    let mut s = String::new();
    push_str(&mut s, t);
    s
}

/// The character sequences of a sequence of strings.
pub open spec fn string_views(v: Seq<String>) -> Seq<Seq<char>> {
    v.map_values(|s: String| s@)
}

/// Whether two character vectors hold the same characters.
pub fn eq_chars(a: &Vec<char>, b: &Vec<char>) -> (r: bool)
    ensures
        r == (a@ == b@),
{
    if a.len() != b.len() {
        return false;
    }
    let mut i: usize = 0;
    while i < a.len()
        invariant
            i <= a.len() == b.len(),
            forall|j: int| 0 <= j < i ==> a@[j] == b@[j],
        decreases a.len() - i,
    {
        if a[i] != b[i] {
            return false;
        }
        i = i + 1;
    }
    assert(a@ =~= b@);
    true
}

/// Whether the characters `a` are those of `b`.
pub fn eq_chars_str(a: &Vec<char>, b: &str) -> (r: bool)
    ensures
        r == (a@ == b@),
{
    let bc = chars_of(b);
    eq_chars(a, &bc)
}

// ---------------------------------------------------------------------------
// Decimal numerals
// ---------------------------------------------------------------------------

/// The ASCII digit for `d` (`d < 10`).
pub open spec fn digit_char(d: nat) -> char {
    ((d + 48) as u32) as char
}

/// Decimal representation of `n` without leading zeros ("0" for zero).
pub open spec fn decimal(n: nat) -> Seq<char>
    decreases n,
{
    if n < 10 {
        seq![digit_char(n)]
    } else {
        decimal(n / 10).push(digit_char(n % 10))
    }
}

/// Decimal representation of a signed integer, with `-` before negative values.
pub open spec fn int_text(v: int) -> Seq<char> {
    if v < 0 {
        seq!['-'] + decimal((-v) as nat)
    } else {
        decimal(v as nat)
    }
}

fn digit(d: u64) -> (c: char)
    requires
        d < 10,
    ensures
        c == digit_char(d as nat),
{
    let c = match d {
        0 => '0',
        1 => '1',
        2 => '2',
        3 => '3',
        4 => '4',
        5 => '5',
        6 => '6',
        7 => '7',
        8 => '8',
        _ => '9',
    };
    c
}

/// Appends the decimal representation of `n`.
pub fn push_u128(s: &mut String, n: u128)
    ensures
        final(s)@ == old(s)@ + decimal(n as nat),
    decreases n,
{
    if n >= 10 {
        push_u128(s, n / 10);
    }
    push_char(s, digit((n % 10) as u64));
}

/// Appends the decimal representation of `n`.
pub fn push_u64(s: &mut String, n: u64)
    ensures
        final(s)@ == old(s)@ + decimal(n as nat),
{
    push_u128(s, n as u128);
}

/// Appends the decimal representation of `v`, with a leading `-` when negative.
pub fn push_i128(s: &mut String, v: i128)
    ensures
        final(s)@ == old(s)@ + int_text(v as int),
{
    if v < 0 {
        push_char(s, '-');
        let m: u128 = (0i128 - (v + 1)) as u128 + 1;
        push_u128(s, m);
    } else {
        push_u128(s, v as u128);
    }
}

/// A value given in hundredths, written with exactly two decimals (as `{:.2}` writes it).
pub open spec fn fixed2(v: int) -> Seq<char> {
    let n = if v < 0 {
        -v
    } else {
        v
    };
    (if v < 0 {
        seq!['-']
    } else {
        Seq::empty()
    }) + decimal((n / 100) as nat) + seq!['.', digit_char(((n % 100) / 10) as nat), digit_char((n % 10) as nat)]
}

/// Appends `v / 100` with exactly two decimals.
pub fn push_fixed2(s: &mut String, v: i128)
    requires
        v > i128::MIN,
    ensures
        final(s)@ == old(s)@ + fixed2(v as int),
{
    let ghost start = s@;
    let n: u128 = if v < 0 { (0 - v) as u128 } else { v as u128 };
    if v < 0 {
        push_char(s, '-');
    }
    let ghost signed = s@;
    assert(signed == start + (if v < 0 { seq!['-'] } else { Seq::<char>::empty() }));
    push_u128(s, n / 100);
    push_char(s, '.');
    push_char(s, digit(((n % 100) / 10) as u64));
    push_char(s, digit((n % 10) as u64));
}

/// Numerals of values below 1000 have at most three digits.
pub proof fn lemma_decimal_len_small(n: nat)
    requires
        n < 1000,
    ensures
        decimal(n).len() <= 3,
    decreases n,
{
    if n >= 10 {
        lemma_decimal_len_small(n / 10);
        if n / 10 < 10 {
            assert(decimal(n / 10).len() == 1);
        } else {
            lemma_decimal_len_small(n / 100);
            assert(decimal(n / 10).len() <= 2);
        }
    }
}

// ---------------------------------------------------------------------------
// Whitespace and trimming (char::is_whitespace, str::trim)
// ---------------------------------------------------------------------------

/// The Unicode `White_Space` property, which `char::is_whitespace` tests.
pub open spec fn is_space(c: char) -> bool {
    let v = c as u32;
    ||| 0x09 <= v <= 0x0D
    ||| v == 0x20
    ||| v == 0x85
    ||| v == 0xA0
    ||| v == 0x1680
    ||| 0x2000 <= v <= 0x200A
    ||| v == 0x2028
    ||| v == 0x2029
    ||| v == 0x202F
    ||| v == 0x205F
    ||| v == 0x3000
}

pub fn is_whitespace(c: char) -> (b: bool)
    ensures
        b == is_space(c),
{
    let v = c as u32;
    (0x09 <= v && v <= 0x0D) || v == 0x20 || v == 0x85 || v == 0xA0 || v == 0x1680 || (0x2000
        <= v && v <= 0x200A) || v == 0x2028 || v == 0x2029 || v == 0x202F || v == 0x205F || v
        == 0x3000
}

/// Whether `c` is whitespace or one of the characters `extra`.
pub open spec fn strippable(c: char, extra: Seq<char>) -> bool {
    is_space(c) || extra.contains(c)
}

fn is_strippable(c: char, extra: &Vec<char>) -> (r: bool)
    ensures
        r == strippable(c, extra@),
{
    if is_whitespace(c) {
        return true;
    }
    let mut i: usize = 0;
    while i < extra.len()
        invariant
            i <= extra@.len(),
            forall|j: int| 0 <= j < i ==> extra@[j] != c,
        decreases extra@.len() - i,
    {
        if extra[i] == c {
            return true;
        }
        i = i + 1;
    }
    false
}

/// Index of the first character of `s` that is not strippable (`s.len()` if none).
pub open spec fn strip_start_index(s: Seq<char>, extra: Seq<char>) -> nat
    decreases s.len(),
{
    if s.len() > 0 && strippable(s[0], extra) {
        1 + strip_start_index(s.drop_first(), extra)
    } else {
        0
    }
}

/// Index just past the last character of `s` that is not strippable (0 if none).
pub open spec fn strip_end_index(s: Seq<char>, extra: Seq<char>) -> nat
    decreases s.len(),
{
    if s.len() > 0 && strippable(s.last(), extra) {
        strip_end_index(s.drop_last(), extra)
    } else {
        s.len()
    }
}

/// `s` without the leading and trailing whitespace and characters of `extra`.
pub open spec fn stripped(s: Seq<char>, extra: Seq<char>) -> Seq<char> {
    let a = strip_start_index(s, extra);
    let t = s.subrange(a as int, s.len() as int);
    t.subrange(0, strip_end_index(t, extra) as int)
}

/// `s` without leading and trailing whitespace, as `str::trim` gives it.
pub open spec fn trimmed(s: Seq<char>) -> Seq<char> {
    stripped(s, Seq::empty())
}

/// Characterizes `strip_start_index` by the first position that is kept.
proof fn lemma_strip_start_unique(s: Seq<char>, extra: Seq<char>, a: int)
    requires
        0 <= a <= s.len(),
        forall|i: int| 0 <= i < a ==> strippable(#[trigger] s[i], extra),
        a < s.len() ==> !strippable(s[a], extra),
    ensures
        strip_start_index(s, extra) == a,
    decreases s.len(),
{
    if a > 0 {
        assert(strippable(s[0], extra));
        assert forall|i: int| 0 <= i < a - 1 implies strippable(#[trigger] s.drop_first()[i], extra) by {
            assert(s.drop_first()[i] == s[i + 1]);
        }
        lemma_strip_start_unique(s.drop_first(), extra, a - 1);
    } else if s.len() > 0 {
        assert(!strippable(s[0], extra));
    }
}

/// Characterizes `strip_end_index` by the last position that is kept.
proof fn lemma_strip_end_unique(s: Seq<char>, extra: Seq<char>, b: int)
    requires
        0 <= b <= s.len(),
        forall|i: int| b <= i < s.len() ==> strippable(#[trigger] s[i], extra),
        b > 0 ==> !strippable(s[b - 1], extra),
    ensures
        strip_end_index(s, extra) == b,
    decreases s.len(),
{
    if b < s.len() {
        assert(strippable(s.last(), extra));
        assert forall|i: int| b <= i < s.len() - 1 implies strippable(#[trigger] s.drop_last()[i], extra) by {
            assert(s.drop_last()[i] == s[i]);
        }
        lemma_strip_end_unique(s.drop_last(), extra, b);
    } else if s.len() > 0 {
        assert(!strippable(s.last(), extra));
    }
}

/// `s` without the leading and trailing whitespace and characters of `extra`.
pub fn strip_chars(s: &Vec<char>, extra: &Vec<char>) -> (t: Vec<char>)
    ensures
        t@ == stripped(s@, extra@),
{
    let n = s.len();
    let mut a: usize = 0;
    while a < n && is_strippable(s[a], extra)
        invariant
            a <= n == s.len(),
            forall|i: int| 0 <= i < a ==> strippable(#[trigger] s@[i], extra@),
        decreases n - a,
    {
        a = a + 1;
    }
    let mut b: usize = n;
    while b > a && is_strippable(s[b - 1], extra)
        invariant
            a <= b <= n == s.len(),
            forall|i: int| b <= i < n ==> strippable(#[trigger] s@[i], extra@),
        decreases b,
    {
        b = b - 1;
    }
    let mut t: Vec<char> = Vec::new();
    let mut i: usize = a;
    while i < b
        invariant
            a <= i <= b <= n == s.len(),
            t@ == s@.subrange(a as int, i as int),
        decreases b - i,
    {
        t.push(s[i]);
        assert(s@.subrange(a as int, i + 1) == s@.subrange(a as int, i as int).push(s@[i as int]));
        i = i + 1;
    }
    proof {
        lemma_strip_start_unique(s@, extra@, a as int);
        let u = s@.subrange(a as int, n as int);
        assert forall|k: int| (b - a) <= k < u.len() implies strippable(#[trigger] u[k], extra@) by {
            assert(u[k] == s@[k + a]);
        }
        if b > a {
            assert(u[b - a - 1] == s@[b - 1]);
        }
        lemma_strip_end_unique(u, extra@, (b - a) as int);
        assert(t@ == u.subrange(0, (b - a) as int));
    }
    t
}

/// `s` without leading and trailing whitespace.
pub fn trim_chars(s: &Vec<char>) -> (t: Vec<char>)
    ensures
        t@ == trimmed(s@),
{
    let none: Vec<char> = Vec::new();
    assert(none@ =~= Seq::<char>::empty());
    strip_chars(s, &none)
}

/// `s` without leading and trailing whitespace, as a `String`.
pub fn trim_str(s: &str) -> (t: String)
    ensures
        t@ == trimmed(s@),
{
    let cs = chars_of(s);
    let tc = trim_chars(&cs);
    string_of(&tc)
}

// ---------------------------------------------------------------------------
// Case mapping
// ---------------------------------------------------------------------------

/// What `str::to_uppercase` returns for a string (Unicode case mapping).
pub uninterp spec fn uppercase(s: Seq<char>) -> Seq<char>;

/// std's `str::to_uppercase`: the Unicode upper-case mapping of `s`. The contract only
/// names the result; how each character maps is left to the Unicode tables.
#[verifier::external_body]
pub(crate) fn to_uppercase(s: &str) -> (r: String)
    ensures
        r@ == uppercase(s@),
{
    s.to_uppercase()
}

/// ASCII lower-case mapping of one character (`char::to_ascii_lowercase`).
pub open spec fn ascii_lower(c: char) -> char {
    if 'A' <= c <= 'Z' {
        ((c as u32) + 32) as char
    } else {
        c
    }
}

pub fn to_ascii_lower(c: char) -> (r: char)
    ensures
        r == ascii_lower(c),
{
    if 'A' <= c && c <= 'Z' {
        let v: u8 = (c as u8) + 32;
        v as char
    } else {
        c
    }
}

} // verus!

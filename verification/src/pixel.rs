//! Pixel-art text and SVG data URIs for the key and touch-strip images.
//!
//! Text is drawn with a 5x7 bitmap font as one SVG `<path>` of filled squares, so the
//! images need no font on the device. Positions along the x axis are given in
//! hundredths of a pixel, so that centred layouts stay exact.

use vstd::prelude::*;
use vstd::string::{StringSliceAdditionalSpecFns, StrSliceExecFns};
use crate::text::{decimal, digit_char, int_text, push_char, push_str, push_i128, push_u64, chars_of};

verus! {

broadcast use vstd::string::group_string_axioms;

// ---------------------------------------------------------------------------
// Data URIs
// ---------------------------------------------------------------------------

/// Bytes that stay as they are in a percent-encoded URI component.
pub open spec fn unreserved(b: u8) -> bool {
    ||| 0x30 <= b <= 0x39
    ||| 0x41 <= b <= 0x5A
    ||| 0x61 <= b <= 0x7A
    ||| b == 0x2D
    ||| b == 0x2E
    ||| b == 0x5F
    ||| b == 0x7E
}

/// Upper-case hexadecimal digit for `d < 16`.
pub open spec fn hex_digit(d: nat) -> char {
    if d < 10 {
        digit_char(d)
    } else {
        ((d + 55) as u32) as char
    }
}

/// One byte of a URI component: itself when unreserved, `%XX` otherwise.
pub open spec fn encode_byte(b: u8) -> Seq<char> {
    if unreserved(b) {
        seq![b as char]
    } else {
        seq!['%', hex_digit((b / 16) as nat), hex_digit((b % 16) as nat)]
    }
}

/// Percent-encoding of a byte string, byte by byte.
pub open spec fn percent_encoded(bytes: Seq<u8>) -> Seq<char>
    decreases bytes.len(),
{
    if bytes.len() == 0 {
        seq![]
    } else {
        percent_encoded(bytes.drop_last()) + encode_byte(bytes.last())
    }
}

fn hex(d: u8) -> (c: char)
    requires
        d < 16,
    ensures
        c == hex_digit(d as nat),
{
    if d < 10 {
        ((d + 48) as u8) as char
    } else {
        ((d + 55) as u8) as char
    }
}

fn is_unreserved(b: u8) -> (r: bool)
    ensures
        r == unreserved(b),
{
    (0x30 <= b && b <= 0x39) || (0x41 <= b && b <= 0x5A) || (0x61 <= b && b <= 0x7A) || b == 0x2D
        || b == 0x2E || b == 0x5F || b == 0x7E
}

/// The prefix of an SVG data URI.
pub open spec fn svg_uri_prefix() -> Seq<char> {
    "data:image/svg+xml,"@
}

/// Percent-encoding works byte by byte, so it distributes over concatenation.
pub proof fn lemma_percent_encoded_concat(a: Seq<u8>, b: Seq<u8>)
    ensures
        percent_encoded(a + b) == percent_encoded(a) + percent_encoded(b),
    decreases b.len(),
{
    if b.len() == 0 {
        assert(a + b =~= a);
        assert(percent_encoded(a) + percent_encoded(b) =~= percent_encoded(a));
    } else {
        assert((a + b).drop_last() =~= a + b.drop_last());
        lemma_percent_encoded_concat(a, b.drop_last());
        assert(percent_encoded(a + b) =~= percent_encoded(a) + percent_encoded(b));
    }
}

/// UTF-8 encodes a text character by character, so it distributes over concatenation.
pub proof fn lemma_encode_utf8_concat(a: Seq<char>, b: Seq<char>)
    ensures
        vstd::utf8::encode_utf8(a + b) == vstd::utf8::encode_utf8(a) + vstd::utf8::encode_utf8(b),
    decreases a.len(),
{
    if a.len() == 0 {
        assert(a + b =~= b);
        assert(vstd::utf8::encode_utf8(a) + vstd::utf8::encode_utf8(b) =~= vstd::utf8::encode_utf8(b));
    } else {
        assert((a + b).drop_first() =~= a.drop_first() + b);
        assert((a + b)[0] == a[0]);
        lemma_encode_utf8_concat(a.drop_first(), b);
        assert(vstd::utf8::encode_utf8(a + b) =~= vstd::utf8::encode_utf8(a) + vstd::utf8::encode_utf8(b));
    }
}

/// `svg` as a `data:` URI, with the UTF-8 bytes of the document percent-encoded.
pub fn data_uri(svg: &str) -> (uri: String)
    ensures
        uri@ == svg_uri_prefix() + percent_encoded(svg.spec_bytes()),
{
    let bytes = svg.as_bytes();
    let mut uri = String::new();
    push_str(&mut uri, "data:image/svg+xml,");
    let mut i: usize = 0;
    while i < bytes.len()
        invariant
            i <= bytes@.len(),
            bytes@ == svg.spec_bytes(),
            uri@ == svg_uri_prefix() + percent_encoded(bytes@.take(i as int)),
        decreases bytes@.len() - i,
    {
        let b = bytes[i];
        assert(bytes@.take(i + 1).drop_last() == bytes@.take(i as int));
        if is_unreserved(b) {
            push_char(&mut uri, b as char);
        } else {
            push_char(&mut uri, '%');
            push_char(&mut uri, hex(b / 16));
            push_char(&mut uri, hex(b % 16));
        }
        i = i + 1;
    }
    assert(bytes@.take(bytes@.len() as int) == bytes@);
    uri
}

// ---------------------------------------------------------------------------
// Bitmap font
// ---------------------------------------------------------------------------

/// The 5x7 glyph of a character: 35 bits, row by row from the top, the leftmost
/// column first, in the low 35 bits. Lower-case letters share the capitals' glyphs;
/// characters without a glyph draw as a hollow box.
pub open spec fn glyph_bits(c: char) -> u64 {
    match c {
        'A' | 'a' => 0x3a31fc631,
        'B' | 'b' => 0x7a31f463e,
        'C' | 'c' => 0x3a308422e,
        'D' | 'd' => 0x7a318c63e,
        'E' | 'e' => 0x7e10f421f,
        'F' | 'f' => 0x7e10f4210,
        'G' | 'g' => 0x3a30bc62f,
        'H' | 'h' => 0x4631fc631,
        'I' | 'i' => 0x38842108e,
        'J' | 'j' => 0x1c4210a4c,
        'K' | 'k' => 0x4654c5251,
        'L' | 'l' => 0x42108421f,
        'M' | 'm' => 0x4775ac631,
        'N' | 'n' => 0x4639ace31,
        'O' | 'o' => 0x3a318c62e,
        'P' | 'p' => 0x7a31f4210,
        'Q' | 'q' => 0x3a318d64d,
        'R' | 'r' => 0x7a31f5251,
        'S' | 's' => 0x3e107043e,
        'T' | 't' => 0x7c8421084,
        'U' | 'u' => 0x46318c62e,
        'V' | 'v' => 0x46318c544,
        'W' | 'w' => 0x4631ad6aa,
        'X' | 'x' => 0x462a22a31,
        'Y' | 'y' => 0x462a21084,
        'Z' | 'z' => 0x7c222221f,
        '0' => 0x3a33ae62e,
        '1' => 0x11842108e,
        '2' => 0x3a211111f,
        '3' => 0x7c441062e,
        '4' => 0x08ca97c42,
        '5' => 0x7e1e0862e,
        '6' => 0x1910f462e,
        '7' => 0x7c2222108,
        '8' => 0x3a317462e,
        '9' => 0x3a317844c,
        ' ' => 0x000000000,
        '.' => 0x00000018c,
        ',' => 0x000003088,
        ':' => 0x018c03180,
        ';' => 0x018c03088,
        '!' => 0x108421004,
        '?' => 0x3a2111004,
        '%' => 0x632222263,
        '+' => 0x0084f9080,
        '-' => 0x0000f8000,
        '/' => 0x002222200,
        '(' => 0x088842082,
        ')' => 0x208210888,
        '[' => 0x39084210e,
        ']' => 0x38421084e,
        '>' => 0x208208888,
        '<' => 0x088882082,
        '=' => 0x001f07c00,
        '~' => 0x0008a8800,
        '\'' => 0x108800000,
        '"' => 0x294a00000,
        '#' => 0x295f57d4a,
        '&' => 0x32544564d,
        '*' => 0x009575480,
        '_' => 0x00000001f,
        '^' => 0x115100000,
        '$' => 0x11f4717c4,
        '@' => 0x3a216d6ae,
        '|' => 0x108421084,
        '\u{2026}' => 0x000000015,
        _ => 0x7e318c63f,
    }
}

pub fn glyph(c: char) -> (g: u64)
    ensures
        g == glyph_bits(c),
{
    match c {
        'A' | 'a' => 0x3a31fc631,
        'B' | 'b' => 0x7a31f463e,
        'C' | 'c' => 0x3a308422e,
        'D' | 'd' => 0x7a318c63e,
        'E' | 'e' => 0x7e10f421f,
        'F' | 'f' => 0x7e10f4210,
        'G' | 'g' => 0x3a30bc62f,
        'H' | 'h' => 0x4631fc631,
        'I' | 'i' => 0x38842108e,
        'J' | 'j' => 0x1c4210a4c,
        'K' | 'k' => 0x4654c5251,
        'L' | 'l' => 0x42108421f,
        'M' | 'm' => 0x4775ac631,
        'N' | 'n' => 0x4639ace31,
        'O' | 'o' => 0x3a318c62e,
        'P' | 'p' => 0x7a31f4210,
        'Q' | 'q' => 0x3a318d64d,
        'R' | 'r' => 0x7a31f5251,
        'S' | 's' => 0x3e107043e,
        'T' | 't' => 0x7c8421084,
        'U' | 'u' => 0x46318c62e,
        'V' | 'v' => 0x46318c544,
        'W' | 'w' => 0x4631ad6aa,
        'X' | 'x' => 0x462a22a31,
        'Y' | 'y' => 0x462a21084,
        'Z' | 'z' => 0x7c222221f,
        '0' => 0x3a33ae62e,
        '1' => 0x11842108e,
        '2' => 0x3a211111f,
        '3' => 0x7c441062e,
        '4' => 0x08ca97c42,
        '5' => 0x7e1e0862e,
        '6' => 0x1910f462e,
        '7' => 0x7c2222108,
        '8' => 0x3a317462e,
        '9' => 0x3a317844c,
        ' ' => 0x000000000,
        '.' => 0x00000018c,
        ',' => 0x000003088,
        ':' => 0x018c03180,
        ';' => 0x018c03088,
        '!' => 0x108421004,
        '?' => 0x3a2111004,
        '%' => 0x632222263,
        '+' => 0x0084f9080,
        '-' => 0x0000f8000,
        '/' => 0x002222200,
        '(' => 0x088842082,
        ')' => 0x208210888,
        '[' => 0x39084210e,
        ']' => 0x38421084e,
        '>' => 0x208208888,
        '<' => 0x088882082,
        '=' => 0x001f07c00,
        '~' => 0x0008a8800,
        '\'' => 0x108800000,
        '"' => 0x294a00000,
        '#' => 0x295f57d4a,
        '&' => 0x32544564d,
        '*' => 0x009575480,
        '_' => 0x00000001f,
        '^' => 0x115100000,
        '$' => 0x11f4717c4,
        '@' => 0x3a216d6ae,
        '|' => 0x108421084,
        '\u{2026}' => 0x000000015,
        _ => 0x7e318c63f,
    }
}

/// Whether cell `j` (row `j / 5`, column `j % 5`) of a glyph is filled.
pub open spec fn lit(bits: u64, j: nat) -> bool {
    (bits >> ((34 - j) as u64)) & 1u64 == 1u64
}

/// Side of one font pixel for a font size: one seventh of the size, at least 1.
pub open spec fn scale(size: u16) -> nat {
    if size < 14 {
        1
    } else {
        (size / 7) as nat
    }
}

/// Width in pixels of `n` characters drawn with font pixels of side `p`: each glyph is
/// five pixels wide with one pixel between glyphs.
pub open spec fn span(n: nat, p: nat) -> nat {
    if n == 0 {
        0
    } else {
        (n * 6 * p - p) as nat
    }
}

/// One filled square with its top-left corner at (`x`, `y`).
pub open spec fn cell_path(x: int, y: int, p: nat) -> Seq<char> {
    seq!['M'] + int_text(x) + seq![' '] + int_text(y) + seq!['h'] + decimal(p) + seq!['v']
        + decimal(p) + seq!['h', '-'] + decimal(p) + seq!['z']
}

/// The squares of the first `n` cells of a glyph drawn at (`ox`, `oy`).
pub open spec fn glyph_path(bits: u64, ox: int, oy: int, p: nat, n: nat) -> Seq<char>
    decreases n,
{
    if n == 0 {
        seq![]
    } else {
        let j = (n - 1) as nat;
        glyph_path(bits, ox, oy, p, j) + if lit(bits, j) {
            cell_path(ox + (j % 5) * p, oy + (j / 5) * p, p)
        } else {
            seq![]
        }
    }
}

/// The squares of the first `n` characters of `text`, the first glyph's left edge at `left`.
pub open spec fn chars_path(text: Seq<char>, left: int, top: int, p: nat, n: nat) -> Seq<char>
    decreases n,
{
    if n == 0 {
        seq![]
    } else {
        let i = (n - 1) as nat;
        chars_path(text, left, top, p, i) + glyph_path(
            glyph_bits(text[i as int]),
            left + i * 6 * p,
            top,
            p,
            35,
        )
    }
}

/// Left edge of a text of `n` characters centred on `x_centi` (hundredths of a pixel),
/// rounded down to a whole pixel.
pub open spec fn text_left(x_centi: int, n: nat, p: nat) -> int {
    (x_centi - span(n, p) * 50) / 100
}

/// The `<path>` element that draws `text` centred on `x_centi` with its baseline at `y`.
pub open spec fn text_path_spec(
    text: Seq<char>,
    x_centi: int,
    y: int,
    size: u16,
    color: Seq<char>,
) -> Seq<char> {
    let p = scale(size);
    "<path d=\""@ + chars_path(text, text_left(x_centi, text.len(), p), y - 7 * p, p, text.len())
        + "\" fill=\""@ + color + "\"/>"@
}

fn pixel_side(size: u16) -> (p: u16)
    ensures
        p as nat == scale(size),
        1 <= p <= 9362,
{
    if size < 14 {
        1
    } else {
        size / 7
    }
}

/// Width in pixels of `text` at font size `size`.
pub fn text_width(text: &str, size: u16) -> (w: u128)
    ensures
        w as nat == span(text@.len(), scale(size)),
        w <= 0xFFFF_FFFF_FFFF_FFFFu128 * 6 * 9362,
{
    let n = text.unicode_len() as u128;
    let p = pixel_side(size) as u128;
    if n == 0 {
        0
    } else {
        proof {
            assert(n * 6 * p <= 0xFFFF_FFFF_FFFF_FFFFu128 * 6 * 9362) by (nonlinear_arith)
                requires n <= 0xFFFF_FFFF_FFFF_FFFFu128, p <= 9362;
            assert(n * 6 * p >= p) by (nonlinear_arith) requires n >= 1, p >= 1;
        }
        n * 6 * p - p
    }
}

fn floor_centi(num: i128) -> (q: i128)
    requires
        -0x1_0000_0000_0000_0000_0000_0000i128 <= num <= 0x1_0000_0000_0000_0000_0000_0000i128,
    ensures
        q as int == (num as int) / 100,
        -0x1_0000_0000_0000_0000_0000_0000i128 <= q <= 0x1_0000_0000_0000_0000_0000_0000i128,
{
    if num >= 0 {
        ((num as u128) / 100) as i128
    } else {
        let m: u128 = (0i128 - num) as u128;
        let c: u128 = (m + 99) / 100;
        proof {
            let mi = m as int;
            let ci = c as int;
            assert(ci == (mi + 99) / 100);
            assert(-ci == (-mi) / 100) by (nonlinear_arith)
                requires ci == (mi + 99) / 100, mi > 0;
        }
        0i128 - (c as i128)
    }
}

fn push_glyph(s: &mut String, bits: u64, ox: i128, oy: i128, p: u16)
    requires
        -0x1_0000_0000_0000_0000_0000_0000_0000i128 <= ox <= 0x1_0000_0000_0000_0000_0000_0000_0000i128,
        -0x1_0000_0000_0000_0000_0000_0000_0000i128 <= oy <= 0x1_0000_0000_0000_0000_0000_0000_0000i128,
        1 <= p <= 9362,
    ensures
        final(s)@ == old(s)@ + glyph_path(bits, ox as int, oy as int, p as nat, 35),
{
    let ghost start = s@;
    let mut j: u64 = 0;
    while j < 35
        invariant
            j <= 35,
            s@ == start + glyph_path(bits, ox as int, oy as int, p as nat, j as nat),
            -0x1_0000_0000_0000_0000_0000_0000_0000i128 <= ox <= 0x1_0000_0000_0000_0000_0000_0000_0000i128,
            -0x1_0000_0000_0000_0000_0000_0000_0000i128 <= oy <= 0x1_0000_0000_0000_0000_0000_0000_0000i128,
            1 <= p <= 9362,
        decreases 35 - j,
    {
        if (bits >> (34 - j)) & 1u64 == 1u64 {
            let col = (j % 5) as i128;
            let row = (j / 5) as i128;
            let pp = p as i128;
            proof {
                assert(0 <= col * pp <= 4 * 9362) by (nonlinear_arith)
                    requires 0 <= col <= 4, 1 <= pp <= 9362;
                assert(0 <= row * pp <= 6 * 9362) by (nonlinear_arith)
                    requires 0 <= row <= 6, 1 <= pp <= 9362;
            }
            let x = ox + col * pp;
            let y = oy + row * pp;
            push_char(s, 'M');
            push_i128(s, x);
            push_char(s, ' ');
            push_i128(s, y);
            push_char(s, 'h');
            push_u64(s, p as u64);
            push_char(s, 'v');
            push_u64(s, p as u64);
            push_char(s, 'h');
            push_char(s, '-');
            push_u64(s, p as u64);
            push_char(s, 'z');
            proof {
                let ghost cell = cell_path(x as int, y as int, p as nat);
                assert(s@ == start + glyph_path(bits, ox as int, oy as int, p as nat, j as nat)
                    + cell);
            }
        }
        j = j + 1;
    }
}

/// An SVG `<path>` that draws `text` in the bitmap font with pixels of
/// `scale(size)`, centred on `x_centi` (hundredths of a pixel) with its baseline at `y`.
pub fn text_path(text: &str, x_centi: i64, y: i64, size: u16, color: &str) -> (path: String)
    ensures
        path@ == text_path_spec(text@, x_centi as int, y as int, size, color@),
{
    let chars = chars_of(text);
    let n = chars.len();
    let p = pixel_side(size);
    let w = text_width(text, size);
    let pp = p as i128;
    proof {
        assert(w <= 0xFFFF_FFFF_FFFF_FFFFu128 * 6 * 9362) by (nonlinear_arith)
            requires w as nat == span(n as nat, p as nat), n <= 0xFFFF_FFFF_FFFF_FFFFu128, p <= 9362;
    }
    let left = floor_centi(x_centi as i128 - (w as i128) * 50);
    let top = y as i128 - 7 * pp;
    let mut s = String::new();
    push_str(&mut s, "<path d=\"");
    let ghost head = s@;
    let mut i: usize = 0;
    while i < n
        invariant
            i <= n == chars@.len(),
            chars@ == text@,
            1 <= pp <= 9362,
            pp == p as i128,
            1 <= p <= 9362,
            pp as nat == scale(size),
            -0x1_0000_0000_0000_0000_0000_0000i128 <= left <= 0x1_0000_0000_0000_0000_0000_0000i128,
            top == y as i128 - 7 * pp,
            s@ == head + chars_path(text@, left as int, top as int, pp as nat, i as nat),
        decreases n - i,
    {
        let ii = i as i128;
        proof {
            assert(0 <= ii * 6 * pp <= 0xFFFF_FFFF_FFFF_FFFFi128 * 6 * 9362) by (nonlinear_arith)
                requires 0 <= ii <= 0xFFFF_FFFF_FFFF_FFFFi128, 1 <= pp <= 9362;
        }
        let ox = left + ii * 6 * pp;
        push_glyph(&mut s, glyph(chars[i]), ox, top, p);
        proof {
            assert(chars@[i as int] == text@[i as int]);
            assert((i as nat) * 6 * (pp as nat) == ii * 6 * pp);
        }
        i = i + 1;
    }
    push_str(&mut s, "\" fill=\"");
    push_str(&mut s, color);
    push_str(&mut s, "\"/>");
    s
}

} // verus!

//! `COLORREF` values: `0x00BBGGRR`, red in the low byte.

use vstd::prelude::*;
use crate::number::{all_hex_digits, hex_value, numeral_value};
use crate::text::{chars_of, is_white, sub_chars, trim, trim_chars, trim_end, trim_start};

verus! {

/// A Win32 colour reference, `0x00BBGGRR`.
#[derive(Clone, Copy, Debug, PartialEq, Eq, Structural)]
pub struct ColorRef(pub u32);

/// The colour reference that packs three bytes: blue high, red low.
pub open spec fn packed(r: int, g: int, b: int) -> int {
    b * 0x10000 + g * 0x100 + r
}

/// COLORREF is 0x00BBGGRR, not RGB.
pub fn rgb(r: u32, g: u32, b: u32) -> (c: ColorRef)
    ensures
        c.0 == (b << 16u32) | (g << 8u32) | r,
        r < 256 && g < 256 && b < 256 ==> c.0 == packed(r as int, g as int, b as int),
{
    let c = (b << 16u32) | (g << 8u32) | r;
    if r < 256 && g < 256 && b < 256 {
        assert(r < 256 && g < 256 && b < 256 ==> (b << 16u32) | (g << 8u32) | r == b * 0x10000 + g * 0x100 + r) by (bit_vector);
    }
    ColorRef(c)
}

/// COLORREF back into (r, g, b).
pub fn split(c: ColorRef) -> (parts: (u32, u32, u32))
    ensures
        parts == (c.0 & 0xFF, (c.0 >> 8u32) & 0xFF, (c.0 >> 16u32) & 0xFF),
        parts.0 == c.0 % 0x100,
        parts.1 == (c.0 / 0x100) % 0x100,
        parts.2 == (c.0 / 0x10000) % 0x100,
{
    let v = c.0;
    assert(v & 0xFF == v % 0x100) by (bit_vector);
    assert((v >> 8u32) & 0xFF == (v / 0x100) % 0x100) by (bit_vector);
    assert((v >> 16u32) & 0xFF == (v / 0x10000) % 0x100) by (bit_vector);
    (v & 0xFF, (v >> 8u32) & 0xFF, (v >> 16u32) & 0xFF)
}

/// Law: splitting a colour reference built from three bytes gives the bytes
/// back.
pub proof fn lemma_split_rgb(r: int, g: int, b: int)
    requires
        0 <= r < 256,
        0 <= g < 256,
        0 <= b < 256,
    ensures
        packed(r, g, b) % 0x100 == r,
        (packed(r, g, b) / 0x100) % 0x100 == g,
        (packed(r, g, b) / 0x10000) % 0x100 == b,
        packed(r, g, b) < 0x100_0000,
{
    let c = packed(r, g, b);
    assert(c % 0x100 == r) by (nonlinear_arith)
        requires c == b * 0x10000 + g * 0x100 + r, 0 <= r < 256, 0 <= g < 256, 0 <= b < 256;
    assert(c / 0x100 == b * 0x100 + g) by (nonlinear_arith)
        requires c == b * 0x10000 + g * 0x100 + r, 0 <= r < 256, 0 <= g < 256, 0 <= b < 256;
    assert((b * 0x100 + g) % 0x100 == g) by (nonlinear_arith)
        requires 0 <= g < 256, 0 <= b < 256;
    assert(c / 0x10000 == b) by (nonlinear_arith)
        requires c == b * 0x10000 + g * 0x100 + r, 0 <= r < 256, 0 <= g < 256, 0 <= b < 256;
}

/// Law: packing the three bytes `split` reads gives the colour reference back
/// exactly when its top byte is clear.
pub proof fn lemma_rgb_split(c: u32)
    ensures
        packed(c as int % 0x100, (c as int / 0x100) % 0x100, (c as int / 0x10000) % 0x100) == c
            <==> c < 0x100_0000,
{
    assert((c / 0x10000) % 0x100 * 0x10000 + (c / 0x100) % 0x100 * 0x100 + c % 0x100 == c
        % 0x100_0000) by (bit_vector);
}

/// The colour reference for the hexadecimal value `0xRRGGBB`.
pub open spec fn from_hex_rgb(n: int) -> ColorRef {
    ColorRef(packed((n / 0x10000) % 0x100, (n / 0x100) % 0x100, n % 0x100) as u32)
}

/// `s` without its leading `#` characters.
pub open spec fn strip_hashes(s: Seq<char>) -> Seq<char>
    decreases s.len(),
{
    if s.len() > 0 && s[0] == '#' {
        strip_hashes(s.drop_first())
    } else {
        s
    }
}

/// What `u32::from_str_radix(h, 16)` gives for a field of six characters: six
/// hexadecimal digits, or a `+` and five. A field whose characters are not all
/// ASCII fails in either reading, so counting characters here where the
/// original counts bytes changes no outcome.
pub open spec fn hex_field(h: Seq<char>) -> Option<int> {
    if h.len() != 6 {
        None
    } else if all_hex_digits(h) {
        Some(numeral_value(h, 16))
    } else if h[0] == '+' && all_hex_digits(h.drop_first()) {
        Some(numeral_value(h.drop_first(), 16))
    } else {
        None
    }
}

/// The colour `s` names: `#RRGGBB`, or bare `RRGGBB`, around whitespace.
pub open spec fn spec_color(s: Seq<char>) -> Option<ColorRef> {
    match hex_field(strip_hashes(trim(s))) {
        Some(n) => Some(from_hex_rgb(n)),
        None => None,
    }
}

proof fn lemma_strip_hashes_skip(s: Seq<char>, k: int)
    requires
        0 <= k < s.len(),
        s[k] == '#',
    ensures
        strip_hashes(s.subrange(k, s.len() as int)) == strip_hashes(s.subrange(k + 1, s.len() as int)),
{
    assert(s.subrange(k, s.len() as int).drop_first() =~= s.subrange(k + 1, s.len() as int));
}

/// Whether every character of `h[from..]` is a hexadecimal digit.
fn all_hex(h: &[char], from: usize) -> (b: bool)
    requires
        from <= h@.len(),
    ensures
        b == all_hex_digits(h@.subrange(from as int, h@.len() as int)),
{
    let mut i = from;
    while i < h.len()
        invariant
            from <= i <= h@.len(),
            forall|j: int| from <= j < i ==> crate::number::is_hex_digit(#[trigger] h@[j]),
        decreases h@.len() - i,
    {
        let c = h[i];
        if !(('0' <= c && c <= '9') || ('a' <= c && c <= 'f') || ('A' <= c && c <= 'F')) {
            assert(!crate::number::is_hex_digit(h@.subrange(from as int, h@.len() as int)[i - from]));
            return false;
        }
        i = i + 1;
    }
    assert forall|j: int| 0 <= j < h@.len() - from implies crate::number::is_hex_digit(
        #[trigger] h@.subrange(from as int, h@.len() as int)[j],
    ) by {
        assert(h@.subrange(from as int, h@.len() as int)[j] == h@[from + j]);
    }
    true
}

/// The colour the characters `s` name; see `color`.
pub fn color_chars(s: &[char]) -> (c: Option<ColorRef>)
    ensures
        c == spec_color(s@),
{
    let t = trim_chars(s);
    let n = t.len();
    let mut k: usize = 0;
    assert(t@.subrange(0, n as int) =~= t@);
    while k < n && t[k] == '#'
        invariant
            n == t@.len(),
            k <= n,
            strip_hashes(t@) == strip_hashes(t@.subrange(k as int, n as int)),
        decreases n - k,
    {
        proof { lemma_strip_hashes_skip(t@, k as int); }
        k = k + 1;
    }
    let h = sub_chars(&t, k, n);
    assert(strip_hashes(t@) == h@);
    if h.len() != 6 {
        return None;
    }
    let value = if all_hex(&h, 0) {
        assert(h@.subrange(0, 6) =~= h@);
        hex_value(&h)
    } else if h[0] == '+' && all_hex(&h, 1) {
        assert(h@.subrange(1, 6) =~= h@.drop_first());
        let rest = sub_chars(&h, 1, 6);
        hex_value(&rest)
    } else {
        assert(h@.subrange(0, 6) =~= h@);
        assert(h@.subrange(1, 6) =~= h@.drop_first());
        return None;
    };
    let r = (value >> 16u32) & 0xFF;
    let g = (value >> 8u32) & 0xFF;
    let b = value & 0xFF;
    assert((value >> 16u32) & 0xFF == (value / 0x10000) % 0x100) by (bit_vector);
    assert((value >> 8u32) & 0xFF == (value / 0x100) % 0x100) by (bit_vector);
    assert(value & 0xFF == value % 0x100) by (bit_vector);
    Some(rgb(r, g, b))
}

/// `"#RRGGBB"` (or bare `"RRGGBB"`) into a colour reference; `None` for
/// anything else.
pub fn color(s: &str) -> (c: Option<ColorRef>)
    ensures
        c == spec_color(s@),
{
    let v = chars_of(s);
    color_chars(&v)
}

/// Whether `c` is one of `0`-`9`, `a`-`f`, `A`-`F`.
pub open spec fn hex_char(c: char) -> bool {
    ||| '0' <= c <= '9'
    ||| 'a' <= c <= 'f'
    ||| 'A' <= c <= 'F'
}

/// The value of a hexadecimal digit: `0`-`9` are 0-9, `a`-`f` and `A`-`F` are
/// 10-15.
pub open spec fn nibble(c: char) -> int {
    if '0' <= c <= '9' {
        c as int - 48
    } else if 'a' <= c <= 'f' {
        c as int - 87
    } else {
        c as int - 55
    }
}

proof fn lemma_numeral_step(h: Seq<char>, k: int)
    requires
        0 <= k < h.len(),
    ensures
        numeral_value(h.subrange(0, k + 1), 16) == numeral_value(h.subrange(0, k), 16) * 16
            + crate::number::hex_digit_value(h[k]),
{
    assert(h.subrange(0, k + 1).drop_last() =~= h.subrange(0, k));
}

/// Law: six hexadecimal digits, after a `#` or bare, name the colour whose
/// red, green and blue are the values of the first, second and third pair,
/// packed as `0x00BBGGRR`.
pub proof fn lemma_color_hex_triplet(h: Seq<char>)
    requires
        h.len() == 6,
        forall|i: int| 0 <= i < 6 ==> hex_char(#[trigger] h[i]),
    ensures
        ({
            let r = 16 * nibble(h[0]) + nibble(h[1]);
            let g = 16 * nibble(h[2]) + nibble(h[3]);
            let b = 16 * nibble(h[4]) + nibble(h[5]);
            &&& 0 <= r < 256 && 0 <= g < 256 && 0 <= b < 256
            &&& spec_color(seq!['#'] + h) == Some(ColorRef(packed(r, g, b) as u32))
            &&& spec_color(h) == Some(ColorRef(packed(r, g, b) as u32))
        }),
{
    let s = seq!['#'] + h;
    assert(h[0] != '#' && !is_white(h[0]) && !is_white(h[5]));
    assert(s[0] == '#' && s.last() == h[5]);
    assert(trim_start(s) == s);
    assert(trim_end(s) == s);
    assert(trim_start(h) == h);
    assert(trim_end(h) == h);
    assert(s.drop_first() =~= h);
    assert(strip_hashes(s) == strip_hashes(h));
    assert(strip_hashes(h) == h);
    assert(crate::number::all_hex_digits(h));
    assert forall|i: int| 0 <= i < 6 implies #[trigger] crate::number::hex_digit_value(h[i]) == nibble(h[i])
        && 0 <= nibble(h[i]) < 16 by {}
    assert(h.subrange(0, 0) =~= Seq::<char>::empty());
    lemma_numeral_step(h, 0);
    lemma_numeral_step(h, 1);
    lemma_numeral_step(h, 2);
    lemma_numeral_step(h, 3);
    lemma_numeral_step(h, 4);
    lemma_numeral_step(h, 5);
    assert(h.subrange(0, 6) =~= h);
    let r = 16 * nibble(h[0]) + nibble(h[1]);
    let g = 16 * nibble(h[2]) + nibble(h[3]);
    let b = 16 * nibble(h[4]) + nibble(h[5]);
    let n = numeral_value(h, 16);
    assert(n == r * 0x10000 + g * 0x100 + b);
    lemma_split_rgb(b, g, r);
    assert(packed(b, g, r) == n);
}

} // verus!

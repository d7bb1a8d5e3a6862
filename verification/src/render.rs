//! Turning the white-on-black coverage mask into premultiplied ARGB pixels,
//! and the text the clock shows.

use vstd::prelude::*;
use crate::color::ColorRef;
use crate::number::{decimal, digit_char, two_digits};

verus! {

/// The glyph coverage a mask pixel carries: its green byte.
pub open spec fn coverage(px: u32) -> int {
    (px as int / 0x100) % 0x100
}

/// Opacity of the glyph at `cov` over a backdrop of opacity `a0`,
/// composited source-over.
pub open spec fn blend_alpha(cov: int, a0: int) -> int {
    cov + a0 * (255 - cov) / 255
}

/// One premultiplied channel: the glyph colour at `cov`, plus the backdrop at
/// `a0` where the glyph does not cover.
pub open spec fn blend_channel(bg: int, fg: int, cov: int, a0: int) -> int {
    (fg * cov * 255 + bg * a0 * (255 - cov)) / 65025
}

/// A 32-bit pixel with alpha in the high byte.
pub open spec fn argb(a: int, r: int, g: int, b: int) -> int {
    a * 0x1000000 + r * 0x10000 + g * 0x100 + b
}

/// Byte `k` (0 = lowest) of a colour reference.
pub open spec fn byte_of(c: ColorRef, k: int) -> int {
    if k == 0 {
        c.0 as int % 0x100
    } else if k == 1 {
        (c.0 as int / 0x100) % 0x100
    } else {
        (c.0 as int / 0x10000) % 0x100
    }
}

/// What a mask pixel becomes once tinted with `fg` over `bg` at opacity `a0`.
pub open spec fn composited(px: u32, fg: ColorRef, bg: ColorRef, a0: int) -> int {
    let cov = coverage(px);
    argb(
        blend_alpha(cov, a0),
        blend_channel(byte_of(bg, 0), byte_of(fg, 0), cov, a0),
        blend_channel(byte_of(bg, 1), byte_of(fg, 1), cov, a0),
        blend_channel(byte_of(bg, 2), byte_of(fg, 2), cov, a0),
    )
}

proof fn lemma_products(x: int, y: int, z: int)
    by (nonlinear_arith)
    requires
        0 <= x <= 255,
        0 <= y <= 255,
        0 <= z <= 255,
    ensures
        0 <= x * y <= 255 * 255,
        0 <= x * y * z <= 255 * 255 * 255,
{
}

/// The blend never leaves a byte, and a channel never exceeds the alpha it is
/// premultiplied by.
pub proof fn lemma_blend_bounds(bg: int, fg: int, cov: int, a0: int)
    requires
        0 <= bg <= 255,
        0 <= fg <= 255,
        0 <= cov <= 255,
        0 <= a0 <= 255,
    ensures
        0 <= blend_alpha(cov, a0) <= 255,
        0 <= blend_channel(bg, fg, cov, a0) <= blend_alpha(cov, a0),
        0 <= fg * cov * 255 <= 255 * 255 * 255,
        0 <= bg * a0 * (255 - cov) <= 255 * 255 * 255,
        0 <= a0 * (255 - cov) <= 255 * 255,
        0 <= fg * cov <= 255 * 255,
        0 <= bg * a0 <= 255 * 255,
{
    lemma_products(fg, cov, 255);
    lemma_products(bg, a0, 255 - cov);
    lemma_products(a0, 255 - cov, 255);
    let k = a0 * (255 - cov);
    assert(k / 255 <= 255 - cov) by (nonlinear_arith)
        requires 0 <= k <= a0 * (255 - cov), 0 <= a0 <= 255, 0 <= cov <= 255, k == a0 * (255 - cov);
    let n = fg * cov * 255 + bg * a0 * (255 - cov);
    assert(fg * cov * 255 <= 255 * cov * 255) by (nonlinear_arith)
        requires 0 <= fg <= 255, 0 <= cov <= 255;
    assert(bg * a0 * (255 - cov) <= 255 * a0 * (255 - cov)) by (nonlinear_arith)
        requires 0 <= bg <= 255, 0 <= a0 <= 255, 0 <= cov <= 255;
    assert(255 * a0 * (255 - cov) == 255 * k) by (nonlinear_arith)
        requires k == a0 * (255 - cov);
    assert(255 * cov * 255 == 65025 * cov) by (nonlinear_arith);
    // n <= 65025 * cov + 255 * k, so n / 65025 <= cov + k / 255
    assert(n / 65025int <= cov + k / 255) by (nonlinear_arith)
        requires 0 <= n <= 65025 * cov + 255 * k, 0 <= k, 0 <= cov;
    assert(0 <= n / 65025int) by (nonlinear_arith) requires 0 <= n;
}

/// Law: where the glyph does not cover, a transparent backdrop leaves the
/// pixel fully transparent (and so click-through), and an opaque one shows the
/// backdrop colour; where the glyph covers fully, the pixel is opaque in the
/// glyph colour, whatever the backdrop. Any coverage at all makes the pixel at
/// least that opaque, so the digits show whatever the two colours are, and no
/// channel exceeds the alpha it is premultiplied by.
pub proof fn lemma_composite_cases(px: u32, fg: ColorRef, bg: ColorRef, a0: int)
    requires
        0 <= a0 <= 255,
    ensures
        coverage(px) == 0 && a0 == 0 ==> composited(px, fg, bg, a0) == 0,
        coverage(px) == 0 && a0 == 255 ==> composited(px, fg, bg, a0) == argb(
            255,
            byte_of(bg, 0),
            byte_of(bg, 1),
            byte_of(bg, 2),
        ),
        coverage(px) == 255 ==> composited(px, fg, bg, a0) == argb(
            255,
            byte_of(fg, 0),
            byte_of(fg, 1),
            byte_of(fg, 2),
        ),
        blend_alpha(coverage(px), a0) >= coverage(px),
        forall|k: int|
            0 <= k < 3 ==> 0 <= #[trigger] blend_channel(byte_of(bg, k), byte_of(fg, k), coverage(px), a0)
                <= blend_alpha(coverage(px), a0),
{
    let cov = coverage(px);
    assert forall|k: int| 0 <= k < 3 implies 0 <= #[trigger] blend_channel(
        byte_of(bg, k),
        byte_of(fg, k),
        cov,
        a0,
    ) <= blend_alpha(cov, a0) by {
        lemma_blend_bounds(byte_of(bg, k), byte_of(fg, k), cov, a0);
    }
    assert(a0 * (255 - cov) / 255 >= 0) by (nonlinear_arith)
        requires 0 <= a0 <= 255, 0 <= cov <= 255;
    if cov == 0 && a0 == 255 {
        assert forall|x: int| 0 <= x <= 255 implies blend_channel(x, 0, 0, 255) == x && blend_channel(x, 255, 0, 255) == x by {
            assert((x * 255 * 255) / 65025 == x) by (nonlinear_arith);
        }
        assert forall|x: int, y: int| 0 <= x <= 255 && 0 <= y <= 255 implies blend_channel(x, y, 0, 255) == x by {
            assert((y * 0 * 255 + x * 255 * (255 - 0)) / 65025 == x) by (nonlinear_arith)
                requires 0 <= x <= 255;
        }
    }
    if cov == 255 {
        assert forall|x: int, y: int| 0 <= x <= 255 && 0 <= y <= 255 implies blend_channel(x, y, 255, a0) == y by {
            assert((y * 255 * 255 + x * a0 * (255 - 255)) / 65025 == y) by (nonlinear_arith)
                requires 0 <= y <= 255;
        }
    }
}

/// Tints a white-on-black coverage mask in place: each pixel becomes the glyph
/// in `fg` at its coverage over the backdrop `bg` at opacity `bg_alpha`, in the
/// premultiplied form a per-pixel-alpha layered window expects.
pub fn composite(pixels: &mut [u32], fg: ColorRef, bg: ColorRef, bg_alpha: u32)
    requires
        bg_alpha <= 255,
    ensures
        final(pixels)@.len() == old(pixels)@.len(),
        forall|i: int|
            0 <= i < old(pixels)@.len() ==> #[trigger] final(pixels)@[i] as int == composited(
                old(pixels)@[i],
                fg,
                bg,
                bg_alpha as int,
            ),
{
    let (bg_r, bg_g, bg_b) = crate::color::split(bg);
    let (fg_r, fg_g, fg_b) = crate::color::split(fg);
    let a0 = bg_alpha;
    let n = pixels.len();
    let mut i: usize = 0;
    while i < n
        invariant
            n == pixels@.len(),
            n == old(pixels)@.len(),
            0 <= i <= n,
            a0 == bg_alpha,
            a0 <= 255,
            bg_r == byte_of(bg, 0),
            bg_g == byte_of(bg, 1),
            bg_b == byte_of(bg, 2),
            fg_r == byte_of(fg, 0),
            fg_g == byte_of(fg, 1),
            fg_b == byte_of(fg, 2),
            forall|j: int|
                0 <= j < i ==> #[trigger] pixels@[j] as int == composited(
                    old(pixels)@[j],
                    fg,
                    bg,
                    bg_alpha as int,
                ),
            forall|j: int| i <= j < n ==> #[trigger] pixels@[j] == old(pixels)@[j],
        decreases n - i,
    {
        let px = pixels[i];
        let cov = (px >> 8u32) & 0xFF;
        assert((px >> 8u32) & 0xFF == (px / 0x100) % 0x100) by (bit_vector);
        proof {
            lemma_blend_bounds(bg_r as int, fg_r as int, cov as int, a0 as int);
            lemma_blend_bounds(bg_g as int, fg_g as int, cov as int, a0 as int);
            lemma_blend_bounds(bg_b as int, fg_b as int, cov as int, a0 as int);
        }
        let alpha = cov + a0 * (255 - cov) / 255;
        let cr = (fg_r * cov * 255 + bg_r * a0 * (255 - cov)) / (255 * 255);
        let cg = (fg_g * cov * 255 + bg_g * a0 * (255 - cov)) / (255 * 255);
        let cb = (fg_b * cov * 255 + bg_b * a0 * (255 - cov)) / (255 * 255);
        let out = (alpha << 24u32) | (cr << 16u32) | (cg << 8u32) | cb;
        assert(alpha < 256 && cr < 256 && cg < 256 && cb < 256 ==> (alpha << 24u32) | (cr << 16u32)
            | (cg << 8u32) | cb == alpha * 0x1000000 + cr * 0x10000 + cg * 0x100 + cb)
            by (bit_vector);
        pixels[i] = out;
        i = i + 1;
    }
}

/// The decimal digits of `n`.
fn decimal_chars(n: u16) -> (v: Vec<char>)
    ensures
        v@ == decimal(n as nat),
    decreases n,
{
    if n < 10 {
        let d = ((n as u8) + 48u8) as char;
        let mut v: Vec<char> = Vec::new();
        v.push(d);
        assert(v@ =~= decimal(n as nat));
        v
    } else {
        let mut v = decimal_chars(n / 10);
        let d = (((n % 10) as u8) + 48u8) as char;
        v.push(d);
        v
    }
}

/// `n` zero-padded to at least two digits.
fn push_two_digits(out: &mut Vec<char>, n: u16)
    ensures
        final(out)@ == old(out)@ + two_digits(n as nat),
{
    if n < 10 {
        out.push('0');
        out.push(((n as u8) + 48u8) as char);
        assert(final(out)@ =~= old(out)@ + two_digits(n as nat));
    } else {
        let d = decimal_chars(n);
        let mut i: usize = 0;
        let ghost start = out@;
        while i < d.len()
            invariant
                i <= d@.len(),
                out@ == start + d@.subrange(0, i as int),
            decreases d@.len() - i,
        {
            out.push(d[i]);
            i = i + 1;
            assert(out@ =~= start + d@.subrange(0, i as int));
        }
        assert(d@.subrange(0, d@.len() as int) =~= d@);
    }
}

/// The clock face for a time of day, `HH:MM`.
pub open spec fn clock_face(hour: u16, minute: u16) -> Seq<char> {
    two_digits(hour as nat) + seq![':'] + two_digits(minute as nat)
}

/// The text the clock shows: the hour and the minute, each zero-padded to
/// two digits, with a colon between.
pub fn clock_text(hour: u16, minute: u16) -> (t: Vec<char>)
    ensures
        t@ == clock_face(hour, minute),
{
    let mut t: Vec<char> = Vec::new();
    push_two_digits(&mut t, hour);
    t.push(':');
    push_two_digits(&mut t, minute);
    assert(t@ =~= clock_face(hour, minute));
    t
}

/// Law: every time of day reads as exactly five characters, `HH:MM`, digits
/// around a colon, so the box measured once for `88:88` holds every face.
pub proof fn lemma_clock_face_shape(hour: u16, minute: u16)
    requires
        hour < 100,
        minute < 100,
    ensures
        clock_face(hour, minute).len() == 5,
        clock_face(hour, minute)[2] == ':',
        forall|i: int| 0 <= i < 5 && i != 2 ==> '0' <= #[trigger] clock_face(hour, minute)[i] <= '9',
{
    lemma_two_digits_shape(hour as nat);
    lemma_two_digits_shape(minute as nat);
    let f = clock_face(hour, minute);
    assert(f[0] == two_digits(hour as nat)[0] && f[1] == two_digits(hour as nat)[1]);
    assert(f[3] == two_digits(minute as nat)[0] && f[4] == two_digits(minute as nat)[1]);
}

proof fn lemma_two_digits_shape(n: nat)
    requires
        n < 100,
    ensures
        two_digits(n).len() == 2,
        '0' <= two_digits(n)[0] <= '9',
        '0' <= two_digits(n)[1] <= '9',
{
    if n >= 10 {
        assert(decimal(n / 10) == seq![((n / 10 + '0' as int) as char)]);
    }
}

/// Law: for a time of day (any hour and minute below 100), the face is the
/// tens and units of the hour, a colon, and the tens and units of the minute.
pub proof fn lemma_clock_face_digits(hour: u16, minute: u16)
    requires
        hour < 100,
        minute < 100,
    ensures
        clock_face(hour, minute) == seq![
            digit_char(hour as int / 10),
            digit_char(hour as int % 10),
            ':',
            digit_char(minute as int / 10),
            digit_char(minute as int % 10),
        ],
{
    lemma_two_digits_value(hour as nat);
    lemma_two_digits_value(minute as nat);
    assert(clock_face(hour, minute) =~= seq![
        digit_char(hour as int / 10),
        digit_char(hour as int % 10),
        ':',
        digit_char(minute as int / 10),
        digit_char(minute as int % 10),
    ]);
}

proof fn lemma_two_digits_value(n: nat)
    requires
        n < 100,
    ensures
        two_digits(n) == seq![digit_char(n as int / 10), digit_char(n as int % 10)],
{
    if n >= 10 {
        assert(decimal(n / 10) == seq![((n / 10 + '0' as int) as char)]);
        assert(two_digits(n) =~= seq![digit_char(n as int / 10), digit_char(n as int % 10)]);
    } else {
        assert(two_digits(n) =~= seq![digit_char(n as int / 10), digit_char(n as int % 10)]);
    }
}

/// The font quality to ask for: grayscale antialiasing (4) when `antialias`
/// is on, none (3) when it is off. Never ClearType: subpixel antialiasing is
/// tuned for a known background, and behind the clock is whatever is there.
pub fn font_quality(antialias: bool) -> (q: u32)
    ensures
        q == (if antialias { 4u32 } else { 3u32 }),
{
    if antialias {
        4
    } else {
        3
    }
}

} // verus!

//! Sizing the window from where the ink of a sample actually landed, and
//! placing it on screen.

use vstd::prelude::*;

verus! {

/// Whether a scratch-canvas pixel carries ink: any of its colour bytes is set.
pub open spec fn has_ink(px: u32) -> bool {
    px as int % 0x1000000 != 0
}

/// Whether a value fits an `i32`.
pub open spec fn fits_i32(x: int) -> bool {
    i32::MIN <= x <= i32::MAX
}

/// The smallest box, in canvas pixels, that holds every inked pixel.
#[derive(Clone, Copy, Debug, PartialEq, Eq, Structural)]
pub struct InkBounds {
    pub left: i32,
    pub top: i32,
    pub right: i32,
    pub bottom: i32,
}

/// Window size, and where the text has to be drawn inside it to land on the
/// ink bounds that were measured.
#[derive(Clone, Copy, Debug, PartialEq, Eq, Structural)]
pub struct Layout {
    pub w: i32,
    pub h: i32,
    pub text_x: i32,
    pub text_y: i32,
}

/// `bounds` is exactly the bounding box of the inked pixels of a canvas `width`
/// pixels wide, stored row by row.
pub open spec fn is_ink_box(pixels: Seq<u32>, width: int, bounds: InkBounds) -> bool {
    &&& forall|i: int|
        0 <= i < pixels.len() && has_ink(#[trigger] pixels[i]) ==> {
            &&& bounds.left <= i % width <= bounds.right
            &&& bounds.top <= i / width <= bounds.bottom
        }
    &&& exists|i: int|
        0 <= i < pixels.len() && has_ink(#[trigger] pixels[i]) && i % width == bounds.left
    &&& exists|i: int|
        0 <= i < pixels.len() && has_ink(#[trigger] pixels[i]) && i % width == bounds.right
    &&& exists|i: int|
        0 <= i < pixels.len() && has_ink(#[trigger] pixels[i]) && i / width == bounds.top
    &&& exists|i: int|
        0 <= i < pixels.len() && has_ink(#[trigger] pixels[i]) && i / width == bounds.bottom
}

/// The scratch canvas for a font of `font_size` pixels: generous, so that no
/// glyph drawn at (`font_size`, `font_size`) can spill off an edge.
pub fn canvas_size(font_size: i32) -> (size: (i32, i32))
    requires
        fits_i32(font_size * 8),
    ensures
        size.0 == font_size * 8,
        size.1 == font_size * 4,
{
    (font_size * 8, font_size * 4)
}

/// Scans a canvas `width` pixels wide for the pixels that carry ink and
/// returns their bounding box, or `None` when nothing drew.
pub fn ink_bounds(pixels: &[u32], width: i32) -> (bounds: Option<InkBounds>)
    requires
        width > 0,
        pixels@.len() <= i32::MAX,
    ensures
        bounds is None <==> forall|i: int| 0 <= i < pixels@.len() ==> !has_ink(#[trigger] pixels@[i]),
        bounds matches Some(b) ==> is_ink_box(pixels@, width as int, b),
{
    let n = pixels.len();
    let mut found: Option<InkBounds> = None;
    let ghost mut wl: int = 0;
    let ghost mut wt: int = 0;
    let ghost mut wr: int = 0;
    let ghost mut wb: int = 0;
    let mut i: usize = 0;
    while i < n
        invariant
            n == pixels@.len(),
            n <= i32::MAX,
            width > 0,
            0 <= i <= n,
            found is None <==> forall|j: int| 0 <= j < i ==> !has_ink(#[trigger] pixels@[j]),
            found matches Some(b) ==> {
                &&& forall|j: int|
                    0 <= j < i && has_ink(#[trigger] pixels@[j]) ==> {
                        &&& b.left <= j % (width as int) <= b.right
                        &&& b.top <= j / (width as int) <= b.bottom
                    }
                &&& 0 <= wl < i && has_ink(pixels@[wl]) && wl % (width as int) == b.left
                &&& 0 <= wr < i && has_ink(pixels@[wr]) && wr % (width as int) == b.right
                &&& 0 <= wt < i && has_ink(pixels@[wt]) && wt / (width as int) == b.top
                &&& 0 <= wb < i && has_ink(pixels@[wb]) && wb / (width as int) == b.bottom
            },
        decreases n - i,
    {
        let px = pixels[i];
        assert(px & 0x00FF_FFFF == px % 0x1000000) by (bit_vector);
        if px & 0x00FF_FFFF != 0 {
            let ii = i as i32;
            let x = ii % width;
            let y = ii / width;
            assert(x == (i as int) % (width as int) && y == (i as int) / (width as int)) by (nonlinear_arith)
                requires ii == i, 0 <= ii, width > 0, x == ii % width, y == ii / width;
            match found {
                None => {
                    found = Some(InkBounds { left: x, top: y, right: x, bottom: y });
                    proof {
                        wl = i as int;
                        wt = i as int;
                        wr = i as int;
                        wb = i as int;
                    }
                },
                Some(b) => {
                    let mut nb = b;
                    if x < b.left {
                        nb.left = x;
                        proof { wl = i as int; }
                    }
                    if y < b.top {
                        nb.top = y;
                        proof { wt = i as int; }
                    }
                    if x > b.right {
                        nb.right = x;
                        proof { wr = i as int; }
                    }
                    if y > b.bottom {
                        nb.bottom = y;
                        proof { wb = i as int; }
                    }
                    found = Some(nb);
                },
            }
        }
        i = i + 1;
    }
    if let Some(b) = found {
        assert(has_ink(pixels@[wl]));
        assert(has_ink(pixels@[wr]));
        assert(has_ink(pixels@[wt]));
        assert(has_ink(pixels@[wb]));
    }
    found
}

/// Whether `ink` holds a box that is not inverted.
pub open spec fn ink_drawn(ink: Option<InkBounds>) -> bool {
    ink matches Some(b) && b.left <= b.right && b.top <= b.bottom
}

/// The layout `measure` settles on.
pub open spec fn spec_measure(font_size: int, pad: int, ink: Option<InkBounds>) -> (int, int, int, int) {
    if ink_drawn(ink) {
        let b = ink->Some_0;
        (
            b.right - b.left + 1 + 2 * pad,
            b.bottom - b.top + 1 + 2 * pad,
            pad - (b.left - font_size),
            pad - (b.top - font_size),
        )
    } else {
        (font_size * 3, font_size, pad, pad)
    }
}

/// Every intermediate value `measure` computes fits an `i32`.
pub open spec fn measure_fits(font_size: int, pad: int, ink: Option<InkBounds>) -> bool {
    if ink_drawn(ink) {
        let b = ink->Some_0;
        &&& fits_i32(b.right - b.left)
        &&& fits_i32(b.right - b.left + 1)
        &&& fits_i32(b.bottom - b.top)
        &&& fits_i32(b.bottom - b.top + 1)
        &&& fits_i32(2 * pad)
        &&& fits_i32(b.right - b.left + 1 + 2 * pad)
        &&& fits_i32(b.bottom - b.top + 1 + 2 * pad)
        &&& fits_i32(b.left - font_size)
        &&& fits_i32(b.top - font_size)
        &&& fits_i32(pad - (b.left - font_size))
        &&& fits_i32(pad - (b.top - font_size))
    } else {
        fits_i32(font_size * 3)
    }
}

/// The window layout for the ink measured on a canvas where the sample was
/// drawn at (`font_size`, `font_size`): the ink box grown by `pad` on every
/// side, with the text origin shifted so that the glyphs start exactly at
/// `pad`. When nothing drew, a cell-sized guess rather than a 0x0 window.
pub fn measure(font_size: i32, pad: i32, ink: Option<InkBounds>) -> (lay: Layout)
    requires
        measure_fits(font_size as int, pad as int, ink),
    ensures
        (lay.w as int, lay.h as int, lay.text_x as int, lay.text_y as int) == spec_measure(
            font_size as int,
            pad as int,
            ink,
        ),
{
    let origin = font_size;
    match ink {
        Some(b) => {
            if !(b.right < b.left || b.bottom < b.top) {
                return Layout {
                    w: b.right - b.left + 1 + 2 * pad,
                    h: b.bottom - b.top + 1 + 2 * pad,
                    text_x: pad - (b.left - origin),
                    text_y: pad - (b.top - origin),
                };
            }
        },
        None => {},
    }
    Layout { w: font_size * 3, h: font_size, text_x: pad, text_y: pad }
}

/// Law: the window fits the measured ink exactly, `pad` pixels of border on
/// every side, and drawing the text at the layout's origin puts every inked
/// pixel of the sample inside that border.
pub proof fn lemma_measure_encloses_ink(
    pixels: Seq<u32>,
    width: int,
    font_size: int,
    pad: int,
    b: InkBounds,
    i: int,
)
    requires
        width > 0,
        pad >= 0,
        is_ink_box(pixels, width, b),
        0 <= i < pixels.len(),
        has_ink(pixels[i]),
    ensures
        ink_drawn(Some(b)),
        ({
            let (w, h, tx, ty) = spec_measure(font_size, pad, Some(b));
            let (x, y) = (i % width - font_size + tx, i / width - font_size + ty);
            &&& pad <= x < w - pad
            &&& pad <= y < h - pad
            &&& tx + b.left - font_size == pad
            &&& ty + b.top - font_size == pad
        }),
{
}

/// Where the text origin of `lay` puts canvas column `x`, for a sample drawn
/// at (`font_size`, `font_size`).
pub open spec fn landed(x: int, font_size: int, text_origin: int) -> int {
    x - font_size + text_origin
}

/// Law: the window is no larger than the ink: it is exactly the ink box plus
/// `pad` on every side, with some inked pixel landing on each of the four
/// inner edges of the border, so no row or column of the window beyond the
/// padding is free of ink.
pub proof fn lemma_measure_is_tight(
    pixels: Seq<u32>,
    width: int,
    font_size: int,
    pad: int,
    b: InkBounds,
)
    requires
        width > 0,
        pad >= 0,
        is_ink_box(pixels, width, b),
    ensures
        ({
            let (w, h, tx, ty) = spec_measure(font_size, pad, Some(b));
            &&& w == b.right - b.left + 1 + 2 * pad
            &&& h == b.bottom - b.top + 1 + 2 * pad
            &&& exists|i: int|
                0 <= i < pixels.len() && has_ink(#[trigger] pixels[i]) && landed(i % width, font_size, tx) == pad
            &&& exists|i: int|
                0 <= i < pixels.len() && has_ink(#[trigger] pixels[i]) && landed(i % width, font_size, tx) == w - 1 - pad
            &&& exists|i: int|
                0 <= i < pixels.len() && has_ink(#[trigger] pixels[i]) && landed(i / width, font_size, ty) == pad
            &&& exists|i: int|
                0 <= i < pixels.len() && has_ink(#[trigger] pixels[i]) && landed(i / width, font_size, ty) == h - 1 - pad
        }),
{
    let il = choose|i: int| 0 <= i < pixels.len() && has_ink(#[trigger] pixels[i]) && i % width == b.left;
    let ir = choose|i: int| 0 <= i < pixels.len() && has_ink(#[trigger] pixels[i]) && i % width == b.right;
    let it = choose|i: int| 0 <= i < pixels.len() && has_ink(#[trigger] pixels[i]) && i / width == b.top;
    let ib = choose|i: int| 0 <= i < pixels.len() && has_ink(#[trigger] pixels[i]) && i / width == b.bottom;
    assert(b.left <= il % width <= b.right);
    assert(b.top <= it / width <= b.bottom);
    assert(has_ink(pixels[il]) && has_ink(pixels[ir]) && has_ink(pixels[it]) && has_ink(pixels[ib]));
}

/// Law: when nothing drew, the window is a cell-sized guess, three cells wide
/// and one tall, with the text at the padding.
pub proof fn lemma_measure_without_ink(font_size: int, pad: int)
    ensures
        spec_measure(font_size, pad, None) == (font_size * 3, font_size, pad, pad),
{
}

} // verus!

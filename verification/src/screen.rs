//! Choosing the monitor and the spot on it where the clock starts.

use vstd::prelude::*;
use crate::layout::{Layout, fits_i32};
use crate::number::{decimal, is_digit, lemma_decimal, lemma_parse_i32_decimal, parse_i32, spec_parse_i32};

verus! {

/// A rectangle in screen coordinates.
#[derive(Clone, Copy, Debug, PartialEq, Eq, Structural)]
pub struct Rect {
    pub left: i32,
    pub top: i32,
    pub right: i32,
    pub bottom: i32,
}

/// The work area to place the clock in: the monitor numbered `want` when
/// `want` is positive and it was found (`matched`), else the primary
/// monitor's work area when that could be read (`primary`), else the whole
/// primary screen of `screen_w` by `screen_h`.
pub fn pick_work_area(
    want: i32,
    matched: Option<Rect>,
    primary: Option<Rect>,
    screen_w: i32,
    screen_h: i32,
) -> (area: Rect)
    ensures
        want > 0 && matched is Some ==> area == matched->Some_0,
        !(want > 0 && matched is Some) && primary is Some ==> area == primary->Some_0,
        !(want > 0 && matched is Some) && primary is None ==> area == (Rect {
            left: 0,
            top: 0,
            right: screen_w,
            bottom: screen_h,
        }),
{
    if want > 0 {
        if let Some(rect) = matched {
            return rect;
        }
    }
    match primary {
        Some(rect) => rect,
        None => Rect { left: 0, top: 0, right: screen_w, bottom: screen_h },
    }
}

/// Where the window of layout `lay` starts: its top-right corner `margin_x`
/// in from the right edge of `area` and `margin_y` down from its top.
pub fn window_position(area: Rect, lay: Layout, margin_x: i32, margin_y: i32) -> (pos: (i32, i32))
    requires
        fits_i32(area.right - lay.w),
        fits_i32(area.right - lay.w - margin_x),
        fits_i32(area.top + margin_y),
    ensures
        pos.0 == area.right - lay.w - margin_x,
        pos.1 == area.top + margin_y,
{
    (area.right - lay.w - margin_x, area.top + margin_y)
}

/// The device name tag that precedes a monitor's number: `DISPLAY`.
pub open spec fn display_tag() -> Seq<u16> {
    seq![0x44u16, 0x49, 0x53, 0x50, 0x4C, 0x41, 0x59]
}

/// How many units come before the first NUL of `d`, or all of them.
pub open spec fn nul_pos(d: Seq<u16>) -> nat
    decreases d.len(),
{
    if d.len() == 0 || d[0] == 0 {
        0
    } else {
        1 + nul_pos(d.drop_first())
    }
}

/// `s` ends with `DISPLAY`.
pub open spec fn ends_with_tag(s: Seq<u16>) -> bool {
    s.len() >= 7 && s.subrange(s.len() - 7, s.len() as int) == display_tag()
}

/// What follows the last `DISPLAY` in `s`, if `s` holds one.
pub open spec fn after_last_tag(s: Seq<u16>) -> Option<Seq<u16>>
    decreases s.len(),
{
    if s.len() == 0 {
        None
    } else if ends_with_tag(s) {
        Some(Seq::empty())
    } else {
        match after_last_tag(s.drop_last()) {
            Some(t) => Some(t.push(s.last())),
            None => None,
        }
    }
}

/// A UTF-16 unit as a character for the purpose of reading a number: ASCII
/// as itself, anything else as the replacement character, which no numeral
/// holds either way.
pub open spec fn unit_char(u: u16) -> char {
    if u < 0x80 {
        u as char
    } else {
        '\u{fffd}'
    }
}

/// The number Windows shows for a monitor in Settings > Display: the tail of
/// the device name (`\\.\DISPLAY2` and friends) after its last `DISPLAY`, or
/// the whole name when there is none, read as an `i32`; -1 when that does
/// not read.
pub open spec fn spec_display_number(device: Seq<u16>) -> i32 {
    let name = device.take(nul_pos(device) as int);
    let tail = match after_last_tag(name) {
        Some(t) => t,
        None => name,
    };
    match spec_parse_i32(Seq::new(tail.len(), |i: int| unit_char(tail[i]))) {
        Some(n) => n,
        None => -1i32,
    }
}

/// The monitor number in a device-name buffer padded with NULs; see
/// `spec_display_number`.
pub fn display_number(device: &[u16]) -> (n: i32)
    ensures
        n == spec_display_number(device@),
{
    let len = device.len();
    let mut end: usize = 0;
    assert(device@.subrange(0, len as int) =~= device@);
    while end < len && device[end] != 0
        invariant
            len == device@.len(),
            end <= len,
            nul_pos(device@) == end + nul_pos(device@.subrange(end as int, len as int)),
        decreases len - end,
    {
        assert(device@.subrange(end as int, len as int).drop_first() =~= device@.subrange(
            end + 1,
            len as int,
        ));
        end = end + 1;
    }
    assert(nul_pos(device@.subrange(end as int, len as int)) == 0);
    let ghost name = device@.take(end as int);
    let tag: [u16; 7] = [0x44, 0x49, 0x53, 0x50, 0x4C, 0x41, 0x59];
    assert(tag@ == display_tag());
    let mut tail_start: Option<usize> = None;
    let mut k: usize = 0;
    assert(name.take(0) =~= Seq::<u16>::empty());
    while k < end
        invariant
            end <= len == device@.len(),
            name == device@.take(end as int),
            tag@ == display_tag(),
            k <= end,
            after_last_tag(name.take(k as int)) == match tail_start {
                Some(st) => Some(name.subrange(st as int, k as int)),
                None => None::<Seq<u16>>,
            },
            tail_start matches Some(st) ==> st <= k,
        decreases end - k,
    {
        let k1 = k + 1;
        let ghost pre = name.take(k as int);
        let ghost cur = name.take(k1 as int);
        assert(cur.drop_last() =~= pre);
        assert(cur.last() == device@[k as int]);
        let mut is_tag = k1 >= 7;
        let mut j: usize = 0;
        while is_tag && j < 7
            invariant
                k1 >= 7 ==> forall|q: int| 0 <= q < j ==> device@[k1 - 7 + q] == tag@[q],
                j <= 7,
                is_tag ==> k1 >= 7,
                !is_tag && k1 >= 7 ==> j < 7 && device@[k1 - 7 + j] != tag@[j as int],
                k1 <= end <= len == device@.len(),
                k1 == k + 1,
            decreases 7 - j + (if is_tag { 1int } else { 0 }),
        {
            if device[k1 - 7 + j] != tag[j] {
                is_tag = false;
            } else {
                j = j + 1;
            }
        }
        proof {
            if k1 >= 7 {
                if is_tag {
                    assert(cur.subrange(cur.len() - 7, cur.len() as int) =~= display_tag());
                } else {
                    assert(cur.subrange(cur.len() - 7, cur.len() as int)[j as int] != display_tag()[j as int]);
                }
            }
        }
        if is_tag {
            tail_start = Some(k1);
            assert(name.subrange(k1 as int, k1 as int) =~= Seq::<u16>::empty());
        } else {
            proof {
                if let Some(st) = tail_start {
                    assert(name.subrange(st as int, k1 as int) =~= name.subrange(st as int, k as int).push(
                        device@[k as int],
                    ));
                }
            }
        }
        k = k1;
    }
    assert(name.take(end as int) =~= name);
    let from = match tail_start {
        Some(st) => st,
        None => 0,
    };
    let mut chars: Vec<char> = Vec::new();
    let mut i = from;
    while i < end
        invariant
            from <= i <= end <= len == device@.len(),
            chars@ =~= Seq::new((i - from) as nat, |q: int| unit_char(device@[from + q])),
        decreases end - i,
    {
        let u = device[i];
        let c = if u < 0x80 { (u as u8) as char } else { '\u{fffd}' };
        chars.push(c);
        i = i + 1;
    }
    let ghost tail = name.subrange(from as int, end as int);
    assert(chars@ =~= Seq::new(tail.len(), |q: int| unit_char(tail[q])));
    match parse_i32(&chars) {
        Some(n) => n,
        None => -1,
    }
}

/// The decimal digits of `n` as UTF-16 units.
pub open spec fn digit_units(n: nat) -> Seq<u16> {
    decimal(n).map_values(|c: char| (c as u32) as u16)
}

proof fn lemma_nul_pos_concat(a: Seq<u16>, z: Seq<u16>)
    requires
        forall|i: int| 0 <= i < a.len() ==> #[trigger] a[i] != 0,
        z.len() == 0 || z[0] == 0,
    ensures
        nul_pos(a + z) == a.len(),
    decreases a.len(),
{
    if a.len() == 0 {
        assert(a + z =~= z);
    } else {
        assert((a + z)[0] == a[0]);
        assert((a + z).drop_first() =~= a.drop_first() + z);
        assert forall|i: int| 0 <= i < a.drop_first().len() implies #[trigger] a.drop_first()[i] != 0 by {
            assert(a.drop_first()[i] == a[i + 1]);
        }
        lemma_nul_pos_concat(a.drop_first(), z);
    }
}

proof fn lemma_after_tag(x: Seq<u16>, t: Seq<u16>)
    requires
        forall|i: int| 0 <= i < t.len() ==> #[trigger] t[i] != 0x59,
    ensures
        after_last_tag(x + display_tag() + t) == Some(t),
    decreases t.len(),
{
    let s = x + display_tag() + t;
    if t.len() == 0 {
        assert(s =~= x + display_tag());
        assert(s.subrange(s.len() - 7, s.len() as int) =~= display_tag());
    } else {
        assert(s.last() == t.last());
        assert(t[t.len() - 1] != 0x59);
        assert(s.subrange(s.len() - 7, s.len() as int)[6] == s.last());
        assert(!ends_with_tag(s));
        assert(s.drop_last() =~= x + display_tag() + t.drop_last());
        assert forall|i: int| 0 <= i < t.drop_last().len() implies #[trigger] t.drop_last()[i] != 0x59 by {
            assert(t.drop_last()[i] == t[i]);
        }
        lemma_after_tag(x, t.drop_last());
        assert(t.drop_last().push(t.last()) =~= t);
    }
}

proof fn lemma_no_tag(t: Seq<u16>)
    requires
        forall|i: int| 0 <= i < t.len() ==> #[trigger] t[i] != 0x59,
    ensures
        after_last_tag(t) is None,
    decreases t.len(),
{
    if t.len() > 0 {
        if t.len() >= 7 {
            assert(t.subrange(t.len() - 7, t.len() as int)[6] == t[t.len() - 1]);
        }
        assert forall|i: int| 0 <= i < t.drop_last().len() implies #[trigger] t.drop_last()[i] != 0x59 by {
            assert(t.drop_last()[i] == t[i]);
        }
        lemma_no_tag(t.drop_last());
    }
}

/// Law: a device name that is only the decimal digits of `n`, NUL-padded,
/// reads as `n` too: without `DISPLAY`, the whole name is the number.
pub proof fn lemma_display_number_bare(n: nat, pad_len: nat)
    requires
        n <= i32::MAX,
    ensures
        spec_display_number(digit_units(n) + Seq::new(pad_len, |i: int| 0u16)) == n,
{
    lemma_decimal(n);
    lemma_parse_i32_decimal(n);
    let d = decimal(n);
    let du = digit_units(n);
    assert forall|i: int| 0 <= i < du.len() implies 0x30 <= #[trigger] du[i] <= 0x39 && (du[i] as char)
        == d[i] by {
        assert(is_digit(d[i]));
    }
    let zs = Seq::new(pad_len, |i: int| 0u16);
    assert forall|i: int| 0 <= i < du.len() implies #[trigger] du[i] != 0 by {}
    lemma_nul_pos_concat(du, zs);
    assert((du + zs).take(du.len() as int) =~= du);
    lemma_no_tag(du);
    assert(Seq::new(du.len(), |i: int| unit_char(du[i])) =~= d);
}

/// Law: a device name that ends in `DISPLAY` and the decimal digits of `n`,
/// NUL-padded to any length, reads as monitor `n`, whatever comes before
/// (`\\.\` in practice).
#[verifier::rlimit(40)]
pub proof fn lemma_display_number_reads_n(prefix: Seq<u16>, n: nat, pad_len: nat)
    requires
        n <= i32::MAX,
        forall|i: int| 0 <= i < prefix.len() ==> #[trigger] prefix[i] != 0,
    ensures
        spec_display_number(
            prefix + display_tag() + digit_units(n) + Seq::new(pad_len, |i: int| 0u16),
        ) == n,
{
    lemma_decimal(n);
    lemma_parse_i32_decimal(n);
    let d = decimal(n);
    let du = digit_units(n);
    assert forall|i: int| 0 <= i < du.len() implies 0x30 <= #[trigger] du[i] <= 0x39 && (du[i] as char)
        == d[i] by {
        assert(is_digit(d[i]));
    }
    let name = prefix + display_tag() + du;
    let zs = Seq::new(pad_len, |i: int| 0u16);
    let device = name + zs;
    assert forall|i: int| 0 <= i < name.len() implies #[trigger] name[i] != 0 by {
        if i < prefix.len() {
            assert(name[i] == prefix[i]);
        } else if i < prefix.len() + 7 {
            assert(name[i] == display_tag()[i - prefix.len()]);
        } else {
            assert(name[i] == du[i - prefix.len() - 7]);
        }
    }
    lemma_nul_pos_concat(name, zs);
    assert(device.take(name.len() as int) =~= name);
    assert forall|i: int| 0 <= i < du.len() implies #[trigger] du[i] != 0x59 by {}
    lemma_after_tag(prefix, du);
    assert(Seq::new(du.len(), |i: int| unit_char(du[i])) =~= d);
}

} // verus!

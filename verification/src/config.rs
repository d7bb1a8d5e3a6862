//! The settings: their defaults, and how the `.ini` text applies over them.

use vstd::prelude::*;
use crate::color::{ColorRef, color_chars, hex_char, lemma_color_hex_triplet, nibble, packed, rgb, spec_color};
use crate::number::{
    decimal, lemma_decimal, lemma_parse_i32_decimal, lemma_parse_u32_decimal, parse_i32, parse_u32,
    spec_parse_i32, spec_parse_u32,
};
use crate::text::{
    is_white, lower, trim_end, trim_start, ascii_lower, chars_of, is_whitespace, same_chars, sub_chars, to_ascii_lowercase, trim,
    trim_chars,
};

verus! {

/// A character's UTF-16 code units.
pub open spec fn utf16_units(c: char) -> Seq<u16> {
    if (c as u32) < 0x10000 {
        seq![(c as u32) as u16]
    } else {
        let v = c as u32 - 0x10000;
        seq![(0xD800 + v / 0x400) as u16, (0xDC00 + v % 0x400) as u16]
    }
}

/// `s` in UTF-16.
pub open spec fn utf16(s: Seq<char>) -> Seq<u16>
    decreases s.len(),
{
    if s.len() == 0 {
        Seq::empty()
    } else {
        utf16(s.drop_last()) + utf16_units(s.last())
    }
}

/// `s` in UTF-16 with a terminating NUL, the form a `PCWSTR` points at.
pub open spec fn wide_z(s: Seq<char>) -> Seq<u16> {
    utf16(s).push(0)
}

/// The characters of `s` in UTF-16.
pub fn utf16_chars(s: &[char]) -> (w: Vec<u16>)
    ensures
        w@ == utf16(s@),
{
    let mut w: Vec<u16> = Vec::new();
    let mut i: usize = 0;
    while i < s.len()
        invariant
            i <= s@.len(),
            w@ == utf16(s@.subrange(0, i as int)),
        decreases s@.len() - i,
    {
        let c = s[i];
        let v = c as u32;
        proof { vstd::utf8::char_is_scalar(c); }
        assert(s@.subrange(0, i + 1).drop_last() =~= s@.subrange(0, i as int));
        if v < 0x10000 {
            w.push(v as u16);
        } else {
            let u = v - 0x10000;
            w.push((0xD800 + u / 0x400) as u16);
            w.push((0xDC00 + u % 0x400) as u16);
        }
        assert(w@ =~= utf16(s@.subrange(0, i + 1)));
        i = i + 1;
    }
    assert(s@.subrange(0, s@.len() as int) =~= s@);
    w
}

/// The characters of `s` in UTF-16, NUL-terminated.
pub fn wide_chars(s: &[char]) -> (w: Vec<u16>)
    ensures
        w@ == wide_z(s@),
{
    let mut w = utf16_chars(s);
    w.push(0);
    w
}

/// `s` in UTF-16 with a terminating NUL.
pub fn wide(s: &str) -> (w: Vec<u16>)
    ensures
        w@ == wide_z(s@),
{
    let v = chars_of(s);
    wide_chars(&v)
}

/// Written as the settings file on first run, so the knobs document
/// themselves. It reads back as exactly the defaults.
pub const DEFAULT_INI: &'static str = "\
# topclock settings. Middle-click the clock to reopen this file.
# Restart topclock after editing. Delete this file to regenerate the defaults.
# Comments must be on their own line.

[clock]
# Colors are #RRGGBB, the way you'd write them anywhere else.
fg = #00E6AA
# Only visible if bg_alpha > 0, but it is also what the antialiased glyph
# edges blend toward, so keep it near your intended backdrop.
bg = #0C0C10

# Backdrop opacity, 0-255. 0 means fully transparent AND click-through: the
# digits are then the only thing you can grab or right-click. Anything above 0
# makes the whole rectangle solid to the mouse (try 40 for smoked glass).
bg_alpha = 0

font = Consolas
# Cell height in pixels. The digits come out roughly half of this, and the
# window resizes itself to fit them.
font_size = 26
# 400 = normal, 700 = bold.
weight = 700

# Smooth the glyph edges. Off by default: at this size every pixel then lands
# fully on or fully off, which is crisper and avoids a soft half-covered row on
# round digits. Turn it on for smoother diagonals and curves, which pays off as
# font_size grows.
antialias = off

# Transparent border around the digits, in pixels. 0 = the window is exactly
# the glyphs, so it can sit flush against a screen edge.
pad = 0

# Which monitor to start on. 0 is the primary display; 1, 2, 3 ... match the
# numbers in Settings > System > Display. An unattached number falls back to the
# primary display. Run one copy per monitor with TOPCLOCK_CONFIG pointing each
# at its own ini.
monitor = 0

# Distance from the top-right corner of that monitor's work area, at startup
# only.
margin_x = 0
margin_y = 0
";

/// Everything the `.ini` can override.
pub struct Config {
    /// The font family, UTF-16 and NUL-terminated.
    pub font: Vec<u16>,
    pub font_size: i32,
    pub weight: i32,
    pub fg: ColorRef,
    pub bg: ColorRef,
    pub bg_alpha: u32,
    pub pad: i32,
    pub antialias: bool,
    pub margin_x: i32,
    pub margin_y: i32,
    pub monitor: i32,
}

/// The value of a `Config`.
#[verifier::ext_equal]
pub struct Settings {
    pub font: Seq<u16>,
    pub font_size: i32,
    pub weight: i32,
    pub fg: ColorRef,
    pub bg: ColorRef,
    pub bg_alpha: u32,
    pub pad: i32,
    pub antialias: bool,
    pub margin_x: i32,
    pub margin_y: i32,
    pub monitor: i32,
}

impl View for Config {
    type V = Settings;

    open spec fn view(&self) -> Settings {
        Settings {
            font: self.font@,
            font_size: self.font_size,
            weight: self.weight,
            fg: self.fg,
            bg: self.bg,
            bg_alpha: self.bg_alpha,
            pad: self.pad,
            antialias: self.antialias,
            margin_x: self.margin_x,
            margin_y: self.margin_y,
            monitor: self.monitor,
        }
    }
}

impl Settings {
    /// The ranges every loaded setting stays in.
    pub open spec fn wf(self) -> bool {
        &&& self.font.len() >= 1
        &&& self.font.last() == 0
        &&& self.font_size >= 1
        &&& 1 <= self.weight <= 1000
        &&& self.bg_alpha <= 255
        &&& self.pad >= 0
        &&& self.monitor >= 0
        &&& self.fg.0 < 0x100_0000
        &&& self.bg.0 < 0x100_0000
    }
}

/// The default font family.
pub open spec fn default_font() -> Seq<char> {
    seq!['C', 'o', 'n', 's', 'o', 'l', 'a', 's']
}

/// The settings before any `.ini` is read: Consolas 26 px bold, mint green on
/// near-black, fully transparent backdrop, no antialiasing, no padding, the
/// primary monitor, flush against its corner.
pub open spec fn default_settings() -> Settings {
    Settings {
        font: wide_z(default_font()),
        font_size: 26,
        weight: 700,
        fg: ColorRef(packed(0x00, 0xE6, 0xAA) as u32),
        bg: ColorRef(packed(0x0C, 0x0C, 0x10) as u32),
        bg_alpha: 0,
        pad: 0,
        antialias: false,
        margin_x: 0,
        margin_y: 0,
        monitor: 0,
    }
}

impl Default for Config {
    fn default() -> (c: Self)
        ensures
            c@ == default_settings(),
    {
        let font_name = ['C', 'o', 'n', 's', 'o', 'l', 'a', 's'];
        Config {
            font: wide_chars(&font_name),
            font_size: 26,
            weight: 700,
            fg: rgb(0x00, 0xE6, 0xAA),
            bg: rgb(0x0C, 0x0C, 0x10),
            bg_alpha: 0,
            antialias: false,
            pad: 0,
            margin_x: 0,
            margin_y: 0,
            monitor: 0,
        }
    }
}

/// The usual spellings of yes and no, whatever their case.
pub open spec fn spec_word_flag(w: Seq<char>) -> Option<bool> {
    if w == seq!['o', 'n'] || w == seq!['t', 'r', 'u', 'e'] || w == seq!['y', 'e', 's'] || w
        == seq!['1'] {
        Some(true)
    } else if w == seq!['o', 'f', 'f'] || w == seq!['f', 'a', 'l', 's', 'e'] || w == seq![
        'n',
        'o',
    ] || w == seq!['0'] {
        Some(false)
    } else {
        None
    }
}

/// What `flag` reads in `s`.
pub open spec fn spec_flag(s: Seq<char>) -> Option<bool> {
    spec_word_flag(ascii_lower(trim(s)))
}

/// The yes or no that the characters `s` spell; see `flag`.
pub fn flag_chars(s: &[char]) -> (f: Option<bool>)
    ensures
        f == spec_flag(s@),
{
    let t = trim_chars(s);
    let w = to_ascii_lowercase(&t);
    let on = ['o', 'n'];
    let tr = ['t', 'r', 'u', 'e'];
    let yes = ['y', 'e', 's'];
    let one = ['1'];
    let off = ['o', 'f', 'f'];
    let fa = ['f', 'a', 'l', 's', 'e'];
    let no = ['n', 'o'];
    let zero = ['0'];
    assert(on@ == seq!['o', 'n'] && tr@ == seq!['t', 'r', 'u', 'e'] && yes@ == seq!['y', 'e', 's']
        && one@ == seq!['1']);
    assert(off@ == seq!['o', 'f', 'f'] && fa@ == seq!['f', 'a', 'l', 's', 'e'] && no@ == seq![
        'n',
        'o',
    ] && zero@ == seq!['0']);
    if same_chars(&w, &on) || same_chars(&w, &tr) || same_chars(&w, &yes) || same_chars(&w, &one) {
        Some(true)
    } else if same_chars(&w, &off) || same_chars(&w, &fa) || same_chars(&w, &no) || same_chars(
        &w,
        &zero,
    ) {
        Some(false)
    } else {
        None
    }
}

/// The usual spellings of yes and no: `on`, `true`, `yes`, `1` and `off`,
/// `false`, `no`, `0`, in any case and around whitespace.
pub fn flag(s: &str) -> (f: Option<bool>)
    ensures
        f == spec_flag(s@),
{
    let v = chars_of(s);
    flag_chars(&v)
}

/// The setting names the `.ini` knows, after case folding.
pub open spec fn key_font() -> Seq<char> { seq!['f', 'o', 'n', 't'] }
pub open spec fn key_font_size() -> Seq<char> { seq!['f', 'o', 'n', 't', '_', 's', 'i', 'z', 'e'] }
pub open spec fn key_weight() -> Seq<char> { seq!['w', 'e', 'i', 'g', 'h', 't'] }
pub open spec fn key_fg() -> Seq<char> { seq!['f', 'g'] }
pub open spec fn key_bg() -> Seq<char> { seq!['b', 'g'] }
pub open spec fn key_bg_alpha() -> Seq<char> { seq!['b', 'g', '_', 'a', 'l', 'p', 'h', 'a'] }
pub open spec fn key_antialias() -> Seq<char> { seq!['a', 'n', 't', 'i', 'a', 'l', 'i', 'a', 's'] }
pub open spec fn key_pad() -> Seq<char> { seq!['p', 'a', 'd'] }
pub open spec fn key_margin_x() -> Seq<char> { seq!['m', 'a', 'r', 'g', 'i', 'n', '_', 'x'] }
pub open spec fn key_margin_y() -> Seq<char> { seq!['m', 'a', 'r', 'g', 'i', 'n', '_', 'y'] }
pub open spec fn key_monitor() -> Seq<char> { seq!['m', 'o', 'n', 'i', 't', 'o', 'r'] }

/// The parsed value, or `d` when there is none.
pub open spec fn or_keep<T>(o: Option<T>, d: T) -> T {
    match o {
        Some(v) => v,
        None => d,
    }
}

/// `v.max(lo)`.
pub open spec fn at_least(v: i32, lo: i32) -> i32 {
    if v < lo { lo } else { v }
}

/// `v.clamp(lo, hi)`.
pub open spec fn clamp(v: i32, lo: i32, hi: i32) -> i32 {
    if v < lo { lo } else if v > hi { hi } else { v }
}

/// `v.min(hi)`.
pub open spec fn at_most(v: u32, hi: u32) -> u32 {
    if v > hi { hi } else { v }
}

/// One `key = value` applied over `m`. A value that does not parse keeps what
/// `m` had; a key the clock does not know changes nothing.
pub open spec fn apply_setting(m: Settings, key: Seq<char>, val: Seq<char>) -> Settings {
    if key == key_font() {
        Settings { font: wide_z(val), ..m }
    } else if key == key_font_size() {
        Settings { font_size: at_least(or_keep(spec_parse_i32(val), m.font_size), 1), ..m }
    } else if key == key_weight() {
        Settings { weight: clamp(or_keep(spec_parse_i32(val), m.weight), 1, 1000), ..m }
    } else if key == key_fg() {
        Settings { fg: or_keep(spec_color(val), m.fg), ..m }
    } else if key == key_bg() {
        Settings { bg: or_keep(spec_color(val), m.bg), ..m }
    } else if key == key_bg_alpha() {
        Settings { bg_alpha: at_most(or_keep(spec_parse_u32(val), m.bg_alpha), 255), ..m }
    } else if key == key_antialias() {
        Settings { antialias: or_keep(spec_flag(val), m.antialias), ..m }
    } else if key == key_pad() {
        Settings { pad: at_least(or_keep(spec_parse_i32(val), m.pad), 0), ..m }
    } else if key == key_margin_x() {
        Settings { margin_x: or_keep(spec_parse_i32(val), m.margin_x), ..m }
    } else if key == key_margin_y() {
        Settings { margin_y: or_keep(spec_parse_i32(val), m.margin_y), ..m }
    } else if key == key_monitor() {
        Settings { monitor: at_least(or_keep(spec_parse_i32(val), m.monitor), 0), ..m }
    } else {
        m
    }
}

/// `i` is where `c` first occurs in `s`.
pub open spec fn is_first(s: Seq<char>, c: char, i: int) -> bool {
    &&& 0 <= i < s.len()
    &&& s[i] == c
    &&& forall|j: int| 0 <= j < i ==> s[j] != c
}

/// Where `c` first occurs in `s`, if it does.
pub open spec fn first_index(s: Seq<char>, c: char) -> Option<int> {
    if exists|i: int| is_first(s, c, i) {
        Some(choose|i: int| is_first(s, c, i))
    } else {
        None
    }
}

/// What one line of the `.ini` does to `m`. Blank lines, comments (`#`, `;`)
/// and section headers (`[`) are skipped, as are lines without `=`; the rest
/// split at their first `=` into a case-folded key and a value, both trimmed.
/// A `#` after a value stays part of the value.
pub open spec fn apply_line(m: Settings, raw: Seq<char>) -> Settings {
    let line = trim(raw);
    if line.len() == 0 || line[0] == '#' || line[0] == ';' || line[0] == '[' {
        m
    } else {
        match first_index(line, '=') {
            None => m,
            Some(k) => apply_setting(
                m,
                ascii_lower(trim(line.subrange(0, k))),
                trim(line.subrange(k + 1, line.len() as int)),
            ),
        }
    }
}

/// The pieces of `s` between its `\n`s. The pieces `str::lines` would give
/// differ from these only by a trailing `\r`, which trimming removes, and by a
/// final empty piece, which is skipped as blank.
pub open spec fn split_lines(s: Seq<char>) -> Seq<Seq<char>>
    decreases s.len(),
{
    if s.len() == 0 {
        seq![Seq::empty()]
    } else {
        let prev = split_lines(s.drop_last());
        if s.last() == '\n' {
            prev.push(Seq::empty())
        } else {
            prev.update(prev.len() - 1, prev.last().push(s.last()))
        }
    }
}

/// The lines `ls` applied in order over `m`.
pub open spec fn apply_lines(m: Settings, ls: Seq<Seq<char>>) -> Settings
    decreases ls.len(),
{
    if ls.len() == 0 {
        m
    } else {
        apply_line(apply_lines(m, ls.drop_last()), ls.last())
    }
}

/// The settings an `.ini` text gives: its lines applied over the defaults.
pub open spec fn spec_parse_config(text: Seq<char>) -> Settings {
    apply_lines(default_settings(), split_lines(text))
}

pub proof fn lemma_split_lines_nonempty(s: Seq<char>)
    ensures
        split_lines(s).len() >= 1,
    decreases s.len(),
{
    if s.len() > 0 {
        lemma_split_lines_nonempty(s.drop_last());
    }
}

/// Where `c` first occurs in `s`.
fn find_first(s: &[char], c: char) -> (r: Option<usize>)
    ensures
        r matches Some(i) ==> first_index(s@, c) == Some(i as int),
        r is None ==> first_index(s@, c) is None,
{
    let mut i: usize = 0;
    while i < s.len()
        invariant
            i <= s@.len(),
            forall|j: int| 0 <= j < i ==> s@[j] != c,
        decreases s@.len() - i,
    {
        if s[i] == c {
            assert(is_first(s@, c, i as int));
            let ghost k = choose|k: int| is_first(s@, c, k);
            assert(k == i) by {
                if k < i {
                    assert(s@[k] != c);
                } else if k > i {
                    assert(s@[i as int] != c);
                }
            }
            return Some(i);
        }
        i = i + 1;
    }
    assert(!exists|k: int| is_first(s@, c, k));
    None
}

/// Applies one `key = value` over `c`; see `apply_setting`.
fn set_value(c: &mut Config, key: &[char], val: &[char])
    ensures
        final(c)@ == apply_setting(old(c)@, key@, val@),
{
    let k_font = ['f', 'o', 'n', 't'];
    let k_font_size = ['f', 'o', 'n', 't', '_', 's', 'i', 'z', 'e'];
    let k_weight = ['w', 'e', 'i', 'g', 'h', 't'];
    let k_fg = ['f', 'g'];
    let k_bg = ['b', 'g'];
    let k_bg_alpha = ['b', 'g', '_', 'a', 'l', 'p', 'h', 'a'];
    let k_antialias = ['a', 'n', 't', 'i', 'a', 'l', 'i', 'a', 's'];
    let k_pad = ['p', 'a', 'd'];
    let k_margin_x = ['m', 'a', 'r', 'g', 'i', 'n', '_', 'x'];
    let k_margin_y = ['m', 'a', 'r', 'g', 'i', 'n', '_', 'y'];
    let k_monitor = ['m', 'o', 'n', 'i', 't', 'o', 'r'];
    assert(k_font@ == key_font() && k_font_size@ == key_font_size() && k_weight@ == key_weight());
    assert(k_fg@ == key_fg() && k_bg@ == key_bg() && k_bg_alpha@ == key_bg_alpha());
    assert(k_antialias@ == key_antialias() && k_pad@ == key_pad() && k_margin_x@ == key_margin_x());
    assert(k_margin_y@ == key_margin_y() && k_monitor@ == key_monitor());
    if same_chars(key, &k_font) {
        c.font = wide_chars(val);
    } else if same_chars(key, &k_font_size) {
        let v = match parse_i32(val) { Some(v) => v, None => c.font_size };
        c.font_size = if v < 1 { 1 } else { v };
    } else if same_chars(key, &k_weight) {
        let v = match parse_i32(val) { Some(v) => v, None => c.weight };
        c.weight = if v < 1 { 1 } else if v > 1000 { 1000 } else { v };
    } else if same_chars(key, &k_fg) {
        c.fg = match color_chars(val) { Some(v) => v, None => c.fg };
    } else if same_chars(key, &k_bg) {
        c.bg = match color_chars(val) { Some(v) => v, None => c.bg };
    } else if same_chars(key, &k_bg_alpha) {
        let v = match parse_u32(val) { Some(v) => v, None => c.bg_alpha };
        c.bg_alpha = if v > 255 { 255 } else { v };
    } else if same_chars(key, &k_antialias) {
        c.antialias = match flag_chars(val) { Some(v) => v, None => c.antialias };
    } else if same_chars(key, &k_pad) {
        let v = match parse_i32(val) { Some(v) => v, None => c.pad };
        c.pad = if v < 0 { 0 } else { v };
    } else if same_chars(key, &k_margin_x) {
        c.margin_x = match parse_i32(val) { Some(v) => v, None => c.margin_x };
    } else if same_chars(key, &k_margin_y) {
        c.margin_y = match parse_i32(val) { Some(v) => v, None => c.margin_y };
    } else if same_chars(key, &k_monitor) {
        let v = match parse_i32(val) { Some(v) => v, None => c.monitor };
        c.monitor = if v < 0 { 0 } else { v };
    }
}

/// Applies one raw line of the `.ini` over `c`; see `apply_line`.
fn read_line(c: &mut Config, raw: &[char])
    ensures
        final(c)@ == apply_line(old(c)@, raw@),
{
    let line = trim_chars(raw);
    if line.len() == 0 || line[0] == '#' || line[0] == ';' || line[0] == '[' {
        return;
    }
    match find_first(&line, '=') {
        None => {},
        Some(k) => {
            let key_raw = sub_chars(&line, 0, k);
            let key_t = trim_chars(&key_raw);
            let key = to_ascii_lowercase(&key_t);
            let val_raw = sub_chars(&line, k + 1, line.len());
            let val = trim_chars(&val_raw);
            set_value(c, &key, &val);
        },
    }
}

/// Reads an `.ini` text and applies it over the defaults. Anything
/// unparseable keeps its default rather than stopping the clock.
pub fn parse_config(text: &str) -> (c: Config)
    ensures
        c@ == spec_parse_config(text@),
{
    let s = chars_of(text);
    let n = s.len();
    let mut c = Config::default();
    let mut start: usize = 0;
    let mut i: usize = 0;
    assert(s@.take(0) =~= Seq::<char>::empty());
    assert(split_lines(s@.take(0)).drop_last() =~= Seq::<Seq<char>>::empty());
    while i < n
        invariant
            n == s@.len(),
            start <= i <= n,
            c@ == apply_lines(default_settings(), split_lines(s@.take(i as int)).drop_last()),
            split_lines(s@.take(i as int)).len() >= 1,
            split_lines(s@.take(i as int)).last() == s@.subrange(start as int, i as int),
        decreases n - i,
    {
        let ghost prev = split_lines(s@.take(i as int));
        let ghost next = split_lines(s@.take(i + 1));
        assert(s@.take(i + 1).drop_last() =~= s@.take(i as int));
        assert(s@.take(i + 1).last() == s@[i as int]);
        if s[i] == '\n' {
            let line = sub_chars(&s, start, i);
            read_line(&mut c, &line);
            assert(next == prev.push(Seq::empty()));
            assert(next.drop_last() =~= prev);
            start = i + 1;
            assert(s@.subrange(start as int, i + 1) =~= Seq::<char>::empty());
        } else {
            assert(next == prev.update(prev.len() - 1, prev.last().push(s@[i as int])));
            assert(next.drop_last() =~= prev.drop_last());
            assert(s@.subrange(start as int, i + 1) =~= s@.subrange(start as int, i as int).push(s@[i as int]));
        }
        i = i + 1;
    }
    let line = sub_chars(&s, start, n);
    read_line(&mut c, &line);
    assert(s@.take(n as int) =~= s@);
    proof {
        let ls = split_lines(s@);
        assert(ls.drop_last().push(ls.last()) =~= ls);
    }
    c
}

/// Every value `apply_setting` can store in a colour is one `#RRGGBB` names.
proof fn lemma_color_in_range(val: Seq<char>)
    ensures
        spec_color(val) matches Some(c) ==> c.0 < 0x100_0000,
{
    match crate::color::hex_field(crate::color::strip_hashes(trim(val))) {
        Some(n) => {
            let r = (n / 0x10000) % 0x100;
            let g = (n / 0x100) % 0x100;
            let b = n % 0x100;
            assert(0 <= r < 0x100 && 0 <= g < 0x100 && 0 <= b < 0x100);
            assert(packed(r, g, b) < 0x100_0000);
        },
        None => {},
    }
}

/// Law: the defaults lie within the ranges every loaded setting stays in.
pub proof fn lemma_default_settings_wf()
    ensures
        default_settings().wf(),
{
}

/// Law: applying a line keeps every setting within its range.
pub proof fn lemma_apply_line_wf(m: Settings, raw: Seq<char>)
    requires
        m.wf(),
    ensures
        apply_line(m, raw).wf(),
{
    let line = trim(raw);
    if !(line.len() == 0 || line[0] == '#' || line[0] == ';' || line[0] == '[') {
        if let Some(k) = first_index(line, '=') {
            lemma_color_in_range(trim(line.subrange(k + 1, line.len() as int)));
        }
    }
}

/// Law: whatever the `.ini` holds, the loaded settings stay in range: a font
/// size of at least 1, a weight in 1..=1000, a backdrop opacity of at most 255,
/// no negative padding or monitor number, colours of three bytes, and a
/// NUL-terminated font name.
pub proof fn lemma_parse_config_wf(text: Seq<char>)
    ensures
        spec_parse_config(text).wf(),
{
    lemma_apply_lines_wf(default_settings(), split_lines(text));
}

proof fn lemma_apply_lines_wf(m: Settings, ls: Seq<Seq<char>>)
    requires
        m.wf(),
    ensures
        apply_lines(m, ls).wf(),
    decreases ls.len(),
{
    if ls.len() > 0 {
        lemma_apply_lines_wf(m, ls.drop_last());
        lemma_apply_line_wf(apply_lines(m, ls.drop_last()), ls.last());
    }
}

/// Whether `val` reads as a value for the setting `key`.
pub open spec fn value_parses(key: Seq<char>, val: Seq<char>) -> bool {
    if key == key_font() {
        true
    } else if key == key_fg() || key == key_bg() {
        spec_color(val) is Some
    } else if key == key_bg_alpha() {
        spec_parse_u32(val) is Some
    } else if key == key_antialias() {
        spec_flag(val) is Some
    } else if key == key_font_size() || key == key_weight() || key == key_pad() || key
        == key_margin_x() || key == key_margin_y() || key == key_monitor() {
        spec_parse_i32(val) is Some
    } else {
        false
    }
}

/// Law: a value that fails to parse keeps what the setting had, and a key the
/// clock does not know changes nothing.
pub proof fn lemma_bad_value_keeps_setting(m: Settings, key: Seq<char>, val: Seq<char>)
    requires
        m.wf(),
        !value_parses(key, val),
    ensures
        apply_setting(m, key, val) == m,
{
}

/// Law: a line that is blank, a comment or a section header changes nothing.
pub proof fn lemma_comment_line_ignored(m: Settings, raw: Seq<char>)
    requires
        trim(raw).len() == 0 || trim(raw)[0] == '#' || trim(raw)[0] == ';' || trim(raw)[0] == '[',
    ensures
        apply_line(m, raw) == m,
{
}

proof fn lemma_split_lines_concat(a: Seq<char>, b: Seq<char>)
    ensures
        split_lines(a + seq!['\n'] + b) == split_lines(a) + split_lines(b),
    decreases b.len(),
{
    let t = a + seq!['\n'] + b;
    if b.len() == 0 {
        assert(t =~= a.push('\n'));
        assert(t.drop_last() =~= a);
        assert(split_lines(t) =~= split_lines(a) + split_lines(b));
    } else {
        lemma_split_lines_concat(a, b.drop_last());
        lemma_split_lines_nonempty(b.drop_last());
        assert(t.drop_last() =~= a + seq!['\n'] + b.drop_last());
        assert(t.last() == b.last());
        let sa = split_lines(a);
        let sb = split_lines(b.drop_last());
        if b.last() == '\n' {
            assert((sa + sb).push(Seq::empty()) =~= sa + sb.push(Seq::empty()));
        } else {
            let u = sa + sb;
            assert(u.last() == sb.last());
            assert(u.update(u.len() - 1, u.last().push(b.last())) =~= sa + sb.update(
                sb.len() - 1,
                sb.last().push(b.last()),
            ));
        }
    }
}

proof fn lemma_apply_lines_concat(m: Settings, x: Seq<Seq<char>>, y: Seq<Seq<char>>)
    ensures
        apply_lines(m, x + y) == apply_lines(apply_lines(m, x), y),
    decreases y.len(),
{
    if y.len() == 0 {
        assert(x + y =~= x);
    } else {
        lemma_apply_lines_concat(m, x, y.drop_last());
        assert((x + y).drop_last() =~= x + y.drop_last());
        assert((x + y).last() == y.last());
    }
}

/// Law: the text is read line by line, top to bottom: whatever follows a line
/// break applies over what the text before it gave, so a later line overrides
/// an earlier one.
pub proof fn lemma_parse_config_in_order(a: Seq<char>, b: Seq<char>)
    ensures
        spec_parse_config(a + seq!['\n'] + b) == apply_lines(spec_parse_config(a), split_lines(b)),
{
    lemma_split_lines_concat(a, b);
    lemma_apply_lines_concat(default_settings(), split_lines(a), split_lines(b));
}

/// A line `key = value`.
pub open spec fn ini_line(key: Seq<char>, val: Seq<char>) -> Seq<char> {
    key + seq![' ', '=', ' '] + val
}

/// `v` written as a decimal numeral, with a `-` when negative.
pub open spec fn numeral(v: int) -> Seq<char> {
    if v < 0 {
        seq!['-'] + decimal((-v) as nat)
    } else {
        decimal(v as nat)
    }
}

/// A word that can stand for itself around whitespace.
pub open spec fn solid(s: Seq<char>) -> bool {
    &&& s.len() >= 1
    &&& !is_white(s[0])
    &&& !is_white(s.last())
    &&& forall|i: int| 0 <= i < s.len() ==> #[trigger] s[i] != '\n'
}

/// A setting name as the `.ini` spells it: lower case, no whitespace, no `=`,
/// not starting like a comment or a section header.
pub open spec fn plain_key(k: Seq<char>) -> bool {
    &&& k.len() >= 1
    &&& k[0] != '#' && k[0] != ';' && k[0] != '['
    &&& forall|i: int|
        0 <= i < k.len() ==> !is_white(#[trigger] k[i]) && k[i] != '=' && lower(k[i]) == k[i]
}

proof fn lemma_trim_solid(s: Seq<char>)
    requires
        s.len() >= 1,
        !is_white(s[0]),
        !is_white(s.last()),
    ensures
        trim(s) == s,
{
    assert(trim_start(s) == s);
    assert(trim_end(s) == s);
}

proof fn lemma_split_no_newline(s: Seq<char>)
    requires
        forall|i: int| 0 <= i < s.len() ==> #[trigger] s[i] != '\n',
    ensures
        split_lines(s) == seq![s],
    decreases s.len(),
{
    if s.len() == 0 {
        assert(s =~= Seq::<char>::empty());
    } else {
        let p = s.drop_last();
        assert forall|i: int| 0 <= i < p.len() implies #[trigger] p[i] != '\n' by {
            assert(p[i] == s[i]);
        }
        lemma_split_no_newline(p);
        assert(s.last() != '\n');
        assert(p.push(s.last()) =~= s);
        let prev = split_lines(p);
        assert(split_lines(s) == prev.update(prev.len() - 1, prev.last().push(s.last())));
        assert(prev.update(0, p.push(s.last())) =~= seq![s]);
    }
}

/// A line `key = value` sets `key` to `value`, both as written.
pub proof fn lemma_ini_line(m: Settings, key: Seq<char>, val: Seq<char>)
    requires
        plain_key(key),
        solid(val),
    ensures
        apply_line(m, ini_line(key, val)) == apply_setting(m, key, val),
{
    let line = ini_line(key, val);
    let n: int = key.len() as int;
    assert(line[0] == key[0]);
    assert(line.last() == val.last());
    lemma_trim_solid(line);
    assert(is_first(line, '=', n + 1)) by {
        assert forall|j: int| 0 <= j < n + 1 implies line[j] != '=' by {
            if j < n {
                assert(line[j] == key[j]);
            }
        }
    }
    let k = choose|k: int| is_first(line, '=', k);
    assert(k == n + 1) by {
        if k < n + 1 {
            assert(line[k] != '=');
        } else if k > n + 1 {
            assert(line[n + 1] != '=');
        }
    }
    let head = line.subrange(0, n + 1);
    assert(head =~= key.push(' '));
    assert(trim_start(head) == head) by {
        assert(head[0] == key[0]);
    }
    assert(head.drop_last() =~= key);
    assert(trim_end(key) == key);
    assert(trim(head) == key);
    assert(ascii_lower(key) =~= key);
    let tail = line.subrange(n + 2, line.len() as int);
    assert(tail =~= seq![' '] + val);
    assert(tail.drop_first() =~= val);
    assert(trim_start(val) == val);
    assert(trim_end(val) == val);
    assert(trim(tail) == val);
}

/// A text of one line `key = value` gives the defaults with that line applied.
pub proof fn lemma_one_line_text(key: Seq<char>, val: Seq<char>)
    requires
        plain_key(key),
        solid(val),
    ensures
        spec_parse_config(ini_line(key, val)) == apply_setting(default_settings(), key, val),
{
    let line = ini_line(key, val);
    assert forall|i: int| 0 <= i < line.len() implies #[trigger] line[i] != '\n' by {
        if i < key.len() {
            assert(line[i] == key[i]);
        } else if i >= key.len() + 3 {
            assert(line[i] == val[i - key.len() - 3]);
        }
    }
    lemma_split_no_newline(line);
    assert(seq![line].drop_last() =~= Seq::<Seq<char>>::empty());
    assert(apply_lines(default_settings(), Seq::<Seq<char>>::empty()) == default_settings());
    assert(apply_lines(default_settings(), seq![line]) == apply_line(
        apply_lines(default_settings(), seq![line].drop_last()),
        seq![line].last(),
    ));
    lemma_ini_line(default_settings(), key, val);
}

proof fn lemma_numeral(v: int)
    requires
        i32::MIN <= v <= i32::MAX,
    ensures
        solid(numeral(v)),
        spec_parse_i32(numeral(v)) == Some(v as i32),
{
    if v < 0 {
        lemma_parse_i32_decimal((-v) as nat);
        lemma_decimal((-v) as nat);
        let d = decimal((-v) as nat);
        let s = seq!['-'] + d;
        assert(s.last() == d.last());
        assert(crate::number::is_digit(d[d.len() - 1]));
        assert forall|i: int| 0 <= i < s.len() implies #[trigger] s[i] != '\n' by {
            if i > 0 {
                assert(s[i] == d[i - 1]);
                assert(crate::number::is_digit(d[i - 1]));
            }
        }
    } else {
        lemma_parse_i32_decimal(v as nat);
        lemma_decimal(v as nat);
        let d = decimal(v as nat);
        assert(crate::number::is_digit(d[0]));
        assert(crate::number::is_digit(d[d.len() - 1]));
        assert forall|i: int| 0 <= i < d.len() implies #[trigger] d[i] != '\n' by {
            assert(crate::number::is_digit(d[i]));
        }
    }
}

proof fn lemma_keys_plain()
    ensures
        plain_key(key_font()),
        plain_key(key_font_size()),
        plain_key(key_weight()),
        plain_key(key_fg()),
        plain_key(key_bg()),
        plain_key(key_bg_alpha()),
        plain_key(key_antialias()),
        plain_key(key_pad()),
        plain_key(key_margin_x()),
        plain_key(key_margin_y()),
        plain_key(key_monitor()),
{
}

/// Law: `font_size = v` sets the font size to `v`, raised to at least 1, and
/// changes nothing else.
pub proof fn lemma_font_size_line(v: i32)
    ensures
        spec_parse_config(ini_line(key_font_size(), numeral(v as int))) == (Settings {
            font_size: if v < 1 { 1 } else { v },
            ..default_settings()
        }),
{
    lemma_keys_plain();
    lemma_numeral(v as int);
    lemma_one_line_text(key_font_size(), numeral(v as int));
}

/// Law: `weight = v` sets the weight to `v`, held within 1..=1000, and
/// changes nothing else.
pub proof fn lemma_weight_line(v: i32)
    ensures
        spec_parse_config(ini_line(key_weight(), numeral(v as int))) == (Settings {
            weight: if v < 1 { 1 } else if v > 1000 { 1000 } else { v },
            ..default_settings()
        }),
{
    lemma_keys_plain();
    lemma_numeral(v as int);
    lemma_one_line_text(key_weight(), numeral(v as int));
}

/// Law: `pad = v` sets the padding to `v`, raised to at least 0, and changes
/// nothing else.
pub proof fn lemma_pad_line(v: i32)
    ensures
        spec_parse_config(ini_line(key_pad(), numeral(v as int))) == (Settings {
            pad: if v < 0 { 0 } else { v },
            ..default_settings()
        }),
{
    lemma_keys_plain();
    lemma_numeral(v as int);
    lemma_one_line_text(key_pad(), numeral(v as int));
}

/// Law: `monitor = v` picks monitor `v`, raised to at least 0, and changes
/// nothing else.
pub proof fn lemma_monitor_line(v: i32)
    ensures
        spec_parse_config(ini_line(key_monitor(), numeral(v as int))) == (Settings {
            monitor: if v < 0 { 0 } else { v },
            ..default_settings()
        }),
{
    lemma_keys_plain();
    lemma_numeral(v as int);
    lemma_one_line_text(key_monitor(), numeral(v as int));
}

/// Law: `margin_x = v` and `margin_y = v` set the margin to `v` exactly,
/// negative ones included, and change nothing else.
pub proof fn lemma_margin_lines(v: i32)
    ensures
        spec_parse_config(ini_line(key_margin_x(), numeral(v as int))) == (Settings {
            margin_x: v,
            ..default_settings()
        }),
        spec_parse_config(ini_line(key_margin_y(), numeral(v as int))) == (Settings {
            margin_y: v,
            ..default_settings()
        }),
{
    lemma_keys_plain();
    lemma_numeral(v as int);
    lemma_one_line_text(key_margin_x(), numeral(v as int));
    lemma_one_line_text(key_margin_y(), numeral(v as int));
}

/// Law: `bg_alpha = n` sets the backdrop opacity to `n`, cut down to at most
/// 255, and changes nothing else.
pub proof fn lemma_bg_alpha_line(n: u32)
    ensures
        spec_parse_config(ini_line(key_bg_alpha(), decimal(n as nat))) == (Settings {
            bg_alpha: if n > 255 { 255 } else { n },
            ..default_settings()
        }),
{
    lemma_keys_plain();
    lemma_numeral(0);
    lemma_decimal(n as nat);
    lemma_parse_u32_decimal(n as nat);
    let d = decimal(n as nat);
    assert(crate::number::is_digit(d[0]));
    assert(crate::number::is_digit(d[d.len() - 1]));
    assert forall|i: int| 0 <= i < d.len() implies #[trigger] d[i] != '\n' by {
        assert(crate::number::is_digit(d[i]));
    }
    lemma_one_line_text(key_bg_alpha(), d);
}

/// Law: `fg = #RRGGBB` and `bg = #RRGGBB` set that colour to red `RR`, green
/// `GG` and blue `BB`, and change nothing else.
pub proof fn lemma_color_lines(h: Seq<char>)
    requires
        h.len() == 6,
        forall|i: int| 0 <= i < 6 ==> hex_char(#[trigger] h[i]),
    ensures
        ({
            let c = ColorRef(
                packed(
                    16 * nibble(h[0]) + nibble(h[1]),
                    16 * nibble(h[2]) + nibble(h[3]),
                    16 * nibble(h[4]) + nibble(h[5]),
                ) as u32,
            );
            &&& spec_parse_config(ini_line(key_fg(), seq!['#'] + h)) == (Settings {
                fg: c,
                ..default_settings()
            })
            &&& spec_parse_config(ini_line(key_bg(), seq!['#'] + h)) == (Settings {
                bg: c,
                ..default_settings()
            })
        }),
{
    lemma_keys_plain();
    lemma_color_hex_triplet(h);
    let v = seq!['#'] + h;
    assert(v.last() == h[5]);
    assert(hex_char(h[5]));
    assert forall|i: int| 0 <= i < v.len() implies #[trigger] v[i] != '\n' by {
        if i > 0 {
            assert(v[i] == h[i - 1]);
            assert(hex_char(h[i - 1]));
        }
    }
    lemma_one_line_text(key_fg(), v);
    lemma_one_line_text(key_bg(), v);
}

/// Law: a string of characters below U+10000 becomes one UTF-16 unit per
/// character, each unit the character's code point.
pub proof fn lemma_utf16_bmp(s: Seq<char>)
    requires
        forall|i: int| 0 <= i < s.len() ==> (#[trigger] s[i] as u32) < 0x10000,
    ensures
        utf16(s).len() == s.len(),
        forall|i: int| 0 <= i < s.len() ==> #[trigger] utf16(s)[i] as int == s[i] as u32 as int,
    decreases s.len(),
{
    if s.len() > 0 {
        let p = s.drop_last();
        assert forall|i: int| 0 <= i < p.len() implies (#[trigger] p[i] as u32) < 0x10000 by {
            assert(p[i] == s[i]);
        }
        lemma_utf16_bmp(p);
        assert((s[s.len() - 1] as u32) < 0x10000);
        assert forall|i: int| 0 <= i < s.len() implies #[trigger] utf16(s)[i] as int == s[i] as u32 as int by {
            if i < p.len() {
                assert(utf16(s)[i] == utf16(p)[i]);
                assert(p[i] == s[i]);
            }
        }
    }
}

/// Law: a character past U+FFFF becomes a surrogate pair, a high surrogate
/// then a low one, that decodes back to the character.
pub proof fn lemma_utf16_surrogates(c: char)
    requires
        (c as u32) >= 0x10000,
    ensures
        utf16_units(c).len() == 2,
        0xD800 <= utf16_units(c)[0] < 0xDC00,
        0xDC00 <= utf16_units(c)[1] < 0xE000,
        (utf16_units(c)[0] - 0xD800) * 0x400 + (utf16_units(c)[1] - 0xDC00) + 0x10000 == c as u32,
{
    vstd::utf8::char_is_scalar(c);
    let v = c as u32 - 0x10000;
    assert(v / 0x400 < 0x400);
}

/// Law: `antialias = on` (or `true`, `yes`, `1`, in any case) turns
/// antialiasing on, `antialias = off` (or `false`, `no`, `0`) turns it off,
/// and neither changes anything else.
pub proof fn lemma_antialias_line(w: Seq<char>)
    requires
        solid(w),
    ensures
        ascii_lower(w) == seq!['o', 'n'] || ascii_lower(w) == seq!['t', 'r', 'u', 'e'] || ascii_lower(w)
            == seq!['y', 'e', 's'] || ascii_lower(w) == seq!['1'] ==> spec_parse_config(
            ini_line(key_antialias(), w),
        ) == (Settings { antialias: true, ..default_settings() }),
        ascii_lower(w) == seq!['o', 'f', 'f'] || ascii_lower(w) == seq!['f', 'a', 'l', 's', 'e']
            || ascii_lower(w) == seq!['n', 'o'] || ascii_lower(w) == seq!['0'] ==> spec_parse_config(
            ini_line(key_antialias(), w),
        ) == (Settings { antialias: false, ..default_settings() }),
{
    lemma_keys_plain();
    lemma_trim_solid(w);
    lemma_one_line_text(key_antialias(), w);
    assert(seq!['n', 'o'][0] != seq!['o', 'n'][0]);
    assert(seq!['o', 'f', 'f'][0] != seq!['y', 'e', 's'][0]);
    assert(seq!['0'][0] != seq!['1'][0]);
}

} // verus!

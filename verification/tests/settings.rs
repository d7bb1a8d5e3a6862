use topclock::color::{color, rgb, split, ColorRef};
use topclock::config::{flag, parse_config, wide, Config, DEFAULT_INI};
use topclock::number::{parse_i32, parse_u32};
use topclock::text::{is_whitespace, to_ascii_lowercase, trim_chars};

fn chars(s: &str) -> Vec<char> {
    s.chars().collect()
}

fn same(a: &Config, b: &Config) -> bool {
    a.font == b.font
        && a.font_size == b.font_size
        && a.weight == b.weight
        && a.fg == b.fg
        && a.bg == b.bg
        && a.bg_alpha == b.bg_alpha
        && a.pad == b.pad
        && a.antialias == b.antialias
        && a.margin_x == b.margin_x
        && a.margin_y == b.margin_y
        && a.monitor == b.monitor
}

#[test]
fn rgb_is_bgr_packed() {
    assert_eq!(rgb(0x12, 0x34, 0x56), ColorRef(0x0056_3412));
    assert_eq!(rgb(0x00, 0xE6, 0xAA), ColorRef(0x00AA_E600));
}

#[test]
fn split_undoes_rgb() {
    assert_eq!(split(rgb(0x12, 0x34, 0x56)), (0x12, 0x34, 0x56));
    assert_eq!(split(ColorRef(0xFF00_0000)), (0, 0, 0));
    let c = ColorRef(0x00AB_CDEF);
    let (r, g, b) = split(c);
    assert_eq!(rgb(r, g, b), c);
}

#[test]
fn color_reads_hex_triplets() {
    assert_eq!(color("#00E6AA"), Some(rgb(0x00, 0xE6, 0xAA)));
    assert_eq!(color("00e6aa"), Some(rgb(0x00, 0xE6, 0xAA)));
    assert_eq!(color("  #0C0C10 "), Some(rgb(0x0C, 0x0C, 0x10)));
    assert_eq!(color("##112233"), Some(rgb(0x11, 0x22, 0x33)));
    assert_eq!(color("+0E6AA"), Some(rgb(0x00, 0xE6, 0xAA)));
}

#[test]
fn color_refuses_everything_else() {
    assert_eq!(color("#00E6A"), None);
    assert_eq!(color("#00E6AAB"), None);
    assert_eq!(color("#GG0000"), None);
    assert_eq!(color("-0E6AA"), None);
    assert_eq!(color("#00E6AA # mint"), None);
    assert_eq!(color(""), None);
    assert_eq!(color("#"), None);
    assert_eq!(color("00é6a"), None);
}

#[test]
fn flag_reads_yes_and_no() {
    for s in ["on", "ON", " True ", "yes", "1"] {
        assert_eq!(flag(s), Some(true), "{s}");
    }
    for s in ["off", "False", "NO", "0", "\toff\r"] {
        assert_eq!(flag(s), Some(false), "{s}");
    }
    for s in ["", "maybe", "2", "y", "onn"] {
        assert_eq!(flag(s), None, "{s}");
    }
}

#[test]
fn wide_is_nul_terminated_utf16() {
    let expected: Vec<u16> = "Consolas".encode_utf16().chain(std::iter::once(0)).collect();
    assert_eq!(wide("Consolas"), expected);
    assert_eq!(wide(""), vec![0]);
    assert_eq!(wide("a\u{1F600}"), vec![0x61, 0xD83D, 0xDE00, 0]);
    let s = "Ünïcödé 字体 \u{10FFFF}";
    let expected: Vec<u16> = s.encode_utf16().chain(std::iter::once(0)).collect();
    assert_eq!(wide(s), expected);
}

#[test]
fn defaults_match_the_documented_table() {
    let c = Config::default();
    assert_eq!(c.font, wide("Consolas"));
    assert_eq!(c.font_size, 26);
    assert_eq!(c.weight, 700);
    assert_eq!(c.fg, rgb(0x00, 0xE6, 0xAA));
    assert_eq!(c.bg, rgb(0x0C, 0x0C, 0x10));
    assert_eq!(c.bg_alpha, 0);
    assert!(!c.antialias);
    assert_eq!(c.pad, 0);
    assert_eq!(c.margin_x, 0);
    assert_eq!(c.margin_y, 0);
    assert_eq!(c.monitor, 0);
}

#[test]
fn empty_text_gives_defaults() {
    assert!(same(&parse_config(""), &Config::default()));
    assert!(same(&parse_config("\n\n   \r\n"), &Config::default()));
}

#[test]
fn default_ini_reads_back_as_defaults() {
    assert!(same(&parse_config(DEFAULT_INI), &Config::default()));
}

#[test]
fn every_key_is_read() {
    let text = "[clock]\nfg = #112233\nbg = 445566\nbg_alpha = 40\nfont = Segoe UI\nfont_size = 30\n\
                weight = 400\nantialias = on\npad = 3\nmonitor = 2\nmargin_x = -10\nmargin_y = 12\n";
    let c = parse_config(text);
    assert_eq!(c.fg, rgb(0x11, 0x22, 0x33));
    assert_eq!(c.bg, rgb(0x44, 0x55, 0x66));
    assert_eq!(c.bg_alpha, 40);
    assert_eq!(c.font, wide("Segoe UI"));
    assert_eq!(c.font_size, 30);
    assert_eq!(c.weight, 400);
    assert!(c.antialias);
    assert_eq!(c.pad, 3);
    assert_eq!(c.monitor, 2);
    assert_eq!(c.margin_x, -10);
    assert_eq!(c.margin_y, 12);
}

#[test]
fn keys_fold_case_and_lines_trim() {
    let c = parse_config("  FONT_SIZE   =   40  \r\n\tWeight=900\r\n");
    assert_eq!(c.font_size, 40);
    assert_eq!(c.weight, 900);
}

#[test]
fn values_are_clamped() {
    let c = parse_config("font_size = 0\nweight = 5000\nbg_alpha = 300\npad = -5\nmonitor = -2\n");
    assert_eq!(c.font_size, 1);
    assert_eq!(c.weight, 1000);
    assert_eq!(c.bg_alpha, 255);
    assert_eq!(c.pad, 0);
    assert_eq!(c.monitor, 0);
    let c = parse_config("weight = -3\nfont_size = -100");
    assert_eq!(c.weight, 1);
    assert_eq!(c.font_size, 1);
}

#[test]
fn unparseable_values_keep_their_default() {
    let text = "fg = #12345\nbg = red\nbg_alpha = -1\nfont_size = big\nweight = 99999999999\n\
                antialias = maybe\npad = 1.5\nmargin_x =\nmonitor = two\n";
    assert!(same(&parse_config(text), &Config::default()));
}

#[test]
fn trailing_comments_are_not_stripped() {
    let c = parse_config("fg = #112233 # a comment\nfont_size = 30 ; big\n");
    assert_eq!(c.fg, Config::default().fg);
    assert_eq!(c.font_size, 26);
    let c = parse_config("font = Consolas # the default\n");
    assert_eq!(c.font, wide("Consolas # the default"));
}

#[test]
fn comments_headers_and_stray_lines_are_skipped() {
    let text = "# font_size = 40\n; weight = 100\n[font_size = 50]\nfont_size 60\n=70\n";
    assert!(same(&parse_config(text), &Config::default()));
}

#[test]
fn unknown_keys_change_nothing() {
    assert!(same(&parse_config("width = 300\nheight=20\nfontsize = 9\n"), &Config::default()));
}

#[test]
fn later_lines_override_earlier_ones() {
    let c = parse_config("font_size = 30\nfont_size = 31\npad = 2\npad = x\n");
    assert_eq!(c.font_size, 31);
    assert_eq!(c.pad, 2);
}

#[test]
fn value_splits_at_first_equals() {
    let c = parse_config("font = a=b\n");
    assert_eq!(c.font, wide("a=b"));
}

#[test]
fn last_line_without_newline_counts() {
    assert_eq!(parse_config("pad = 1\npad = 7").pad, 7);
}

#[test]
fn numbers_read_as_std_reads_them() {
    let samples = [
        "0", "7", "+7", "-7", "-0", "+", "-", "", "00012", "2147483647", "2147483648", "-2147483648",
        "-2147483649", "4294967295", "4294967296", "99999999999999999999", "1a", " 1", "+-1", "--1",
        "١٢", "12.0",
    ];
    for s in samples {
        let v = chars(s);
        assert_eq!(parse_i32(&v), s.parse::<i32>().ok(), "i32 {s:?}");
        assert_eq!(parse_u32(&v), s.parse::<u32>().ok(), "u32 {s:?}");
    }
}

#[test]
fn whitespace_is_unicode_whitespace() {
    for u in 0u32..0x3100 {
        if let Some(c) = char::from_u32(u) {
            assert_eq!(is_whitespace(c), c.is_whitespace(), "U+{u:04X}");
        }
    }
    for c in ['\u{FEFF}', '\u{200B}', '\u{E000}', '\u{10FFFF}'] {
        assert_eq!(is_whitespace(c), c.is_whitespace());
    }
}

#[test]
fn trim_and_fold_match_std() {
    for s in ["", "  ", " a b ", "\u{3000}x\u{85}", "\r\nkey\t", "ÄBC dEf"] {
        assert_eq!(trim_chars(&chars(s)), chars(s.trim()), "{s:?}");
        assert_eq!(to_ascii_lowercase(&chars(s)), chars(&s.to_ascii_lowercase()), "{s:?}");
    }
}

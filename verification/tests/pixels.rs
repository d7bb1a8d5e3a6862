use topclock::color::{rgb, ColorRef};
use topclock::layout::{canvas_size, ink_bounds, measure, InkBounds, Layout};
use topclock::render::{clock_text, composite, font_quality};

fn reference_pixel(px: u32, fg: ColorRef, bg: ColorRef, a0: u32) -> u32 {
    let cov = (px >> 8) & 0xFF;
    let alpha = cov + a0 * (255 - cov) / 255;
    let chan = |b: u32, f: u32| (f * cov * 255 + b * a0 * (255 - cov)) / (255 * 255);
    let (fr, fgg, fb) = (fg.0 & 0xFF, (fg.0 >> 8) & 0xFF, (fg.0 >> 16) & 0xFF);
    let (br, bgg, bb) = (bg.0 & 0xFF, (bg.0 >> 8) & 0xFF, (bg.0 >> 16) & 0xFF);
    (alpha << 24) | (chan(br, fr) << 16) | (chan(bgg, fgg) << 8) | chan(bb, fb)
}

#[test]
fn canvas_is_eight_by_four_cells() {
    assert_eq!(canvas_size(26), (208, 104));
    assert_eq!(canvas_size(1), (8, 4));
}

#[test]
fn ink_bounds_find_the_box() {
    // 5 wide, 4 tall
    let mut px = vec![0u32; 20];
    px[5 + 1] = 0x00FF_FFFF;
    px[10 + 3] = 0x0000_0100;
    px[15 + 2] = 0x0000_0001;
    assert_eq!(ink_bounds(&px, 5), Some(InkBounds { left: 1, top: 1, right: 3, bottom: 3 }));
}

#[test]
fn alpha_byte_alone_is_not_ink() {
    let px = vec![0xFF00_0000u32; 12];
    assert_eq!(ink_bounds(&px, 4), None);
    assert_eq!(ink_bounds(&[], 4), None);
}

#[test]
fn measure_fits_the_ink() {
    let b = InkBounds { left: 27, top: 31, right: 84, bottom: 46 };
    assert_eq!(measure(26, 0, Some(b)), Layout { w: 58, h: 16, text_x: -1, text_y: -5 });
    assert_eq!(measure(26, 2, Some(b)), Layout { w: 62, h: 20, text_x: 1, text_y: -3 });
}

#[test]
fn measure_falls_back_when_nothing_drew() {
    let guess = Layout { w: 78, h: 26, text_x: 4, text_y: 4 };
    assert_eq!(measure(26, 4, None), guess);
    let inverted = InkBounds { left: 208, top: 104, right: -1, bottom: -1 };
    assert_eq!(measure(26, 4, Some(inverted)), guess);
}

#[test]
fn transparent_backdrop_leaves_uncovered_pixels_clear() {
    let mut px = vec![0u32, 0x00FF_FFFF, 0x0080_8080];
    let fg = rgb(0x00, 0xE6, 0xAA);
    let bg = rgb(0x0C, 0x0C, 0x10);
    composite(&mut px, fg, bg, 0);
    assert_eq!(px[0], 0);
    assert_eq!(px[1], 0xFF00_E6AA);
    assert_eq!(px[2], reference_pixel(0x0080_8080, fg, bg, 0));
    assert_eq!(px[2] >> 24, 0x80);
}

#[test]
fn opaque_backdrop_shows_bg() {
    let mut px = vec![0u32, 0x00FF_FFFF];
    let fg = rgb(0xFF, 0xFF, 0xFF);
    let bg = rgb(0x0C, 0x0C, 0x10);
    composite(&mut px, fg, bg, 255);
    assert_eq!(px[0], 0xFF0C_0C10);
    assert_eq!(px[1], 0xFFFF_FFFF);
}

#[test]
fn composite_matches_the_formula_everywhere() {
    let fg = rgb(0x12, 0xF0, 0x7E);
    let bg = rgb(0xC3, 0x05, 0x99);
    for a0 in [0u32, 1, 40, 120, 254, 255] {
        let mut px: Vec<u32> = (0u32..256).map(|c| (c << 16) | (c << 8) | c).collect();
        let original = px.clone();
        composite(&mut px, fg, bg, a0);
        for (i, p) in px.iter().enumerate() {
            assert_eq!(*p, reference_pixel(original[i], fg, bg, a0));
            let a = p >> 24;
            assert!((p >> 16) & 0xFF <= a && (p >> 8) & 0xFF <= a && p & 0xFF <= a);
        }
    }
}

#[test]
fn clock_text_is_zero_padded() {
    assert_eq!(clock_text(9, 5).iter().collect::<String>(), "09:05");
    assert_eq!(clock_text(23, 59).iter().collect::<String>(), "23:59");
    assert_eq!(clock_text(0, 0).iter().collect::<String>(), "00:00");
    assert_eq!(clock_text(123, 7).iter().collect::<String>(), format!("{:02}:{:02}", 123, 7));
    assert_eq!(clock_text(65535, 10).iter().collect::<String>(), "65535:10");
}

#[test]
fn font_quality_is_grayscale_or_none() {
    assert_eq!(font_quality(true), 4);
    assert_eq!(font_quality(false), 3);
}

use mctext::render::{blend, pixel_of};
use mctext::{
    render_family, McText, NamedColor, PositionedGlyph, RasterizedGlyph, SoftwareRenderer,
    TextColor,
};

fn pixel(r: &SoftwareRenderer, x: usize, y: usize) -> [u8; 4] {
    let i = (y * r.width() + x) * 4;
    let b = r.buffer();
    [b[i], b[i + 1], b[i + 2], b[i + 3]]
}

// A 2x2 glyph whose box has its bottom left corner at the pen.
fn square(coverage: [u8; 4]) -> RasterizedGlyph {
    RasterizedGlyph::new(0, 0, 2, 2, coverage.to_vec()).unwrap()
}

#[test]
fn new_buffer_is_transparent() {
    let r = SoftwareRenderer::new(3, 2).unwrap();
    assert_eq!(r.width(), 3);
    assert_eq!(r.height(), 2);
    assert_eq!(r.buffer(), &vec![0u8; 24]);
    assert!(SoftwareRenderer::new(usize::MAX, 2).is_none());
    assert!(SoftwareRenderer::new(usize::MAX / 4, 2).is_none());
    assert_eq!(SoftwareRenderer::new(0, 5).unwrap().into_buffer(), Vec::<u8>::new());
}

#[test]
fn from_buffer_checks_the_size() {
    assert!(SoftwareRenderer::from_buffer(vec![0; 24], 3, 2).is_some());
    assert!(SoftwareRenderer::from_buffer(vec![0; 23], 3, 2).is_none());
    assert!(SoftwareRenderer::from_buffer(vec![], usize::MAX, usize::MAX).is_none());
    let r = SoftwareRenderer::from_buffer(vec![7; 4], 1, 1).unwrap();
    assert_eq!(pixel(&r, 0, 0), [7, 7, 7, 7]);
}

#[test]
fn glyph_needs_matching_coverage() {
    assert!(RasterizedGlyph::new(0, 0, 2, 2, vec![0; 4]).is_some());
    assert!(RasterizedGlyph::new(0, 0, 2, 2, vec![0; 3]).is_none());
    assert!(RasterizedGlyph::new(0, 0, usize::MAX, 2, vec![]).is_none());
    let g = RasterizedGlyph::new(-1, 3, 0, 7, vec![]).unwrap();
    assert_eq!(g.width(), 0);
    assert_eq!(g.height(), 7);
}

#[test]
fn blend_values() {
    assert_eq!(blend(255, 0, 255), 255);
    assert_eq!(blend(255, 0, 0), 0);
    assert_eq!(blend(255, 0, 128), 128);
    assert_eq!(blend(0, 255, 128), 127);
    assert_eq!(blend(200, 100, 51), 120);
    assert_eq!(blend(10, 20, 1), 19);
    assert_eq!(blend(77, 77, 99), 77);
}

#[test]
fn stamping_one_glyph_leaves_the_rest_transparent() {
    let mut r = SoftwareRenderer::new(5, 4).unwrap();
    let g = square([10, 0, 128, 255]);
    r.stamp_glyph(&g, 1, 3);
    for y in 0..4 {
        for x in 0..5 {
            let inside = (1..3).contains(&x) && (1..3).contains(&y);
            if !inside {
                assert_eq!(pixel(&r, x, y), [0, 0, 0, 0]);
            }
        }
    }
    assert_eq!(pixel(&r, 1, 1), [255, 255, 255, 10]);
    assert_eq!(pixel(&r, 2, 1), [0, 0, 0, 0]);
    assert_eq!(pixel(&r, 1, 2), [255, 255, 255, 128]);
    assert_eq!(pixel(&r, 2, 2), [255, 255, 255, 255]);
}

#[test]
fn drawing_blends_and_makes_opaque() {
    let mut r = SoftwareRenderer::from_buffer(vec![100; 5 * 4 * 4], 5, 4).unwrap();
    let g = square([51, 0, 255, 1]);
    r.draw_glyph(&g, 1, 3, TextColor::Rgb { r: 200, g: 0, b: 255 });
    assert_eq!(pixel(&r, 1, 1), [120, 80, 131, 255]);
    assert_eq!(pixel(&r, 2, 1), [100, 100, 100, 100]);
    assert_eq!(pixel(&r, 1, 2), [200, 0, 255, 255]);
    assert_eq!(pixel(&r, 2, 2), [100, 99, 100, 255]);
    assert_eq!(pixel(&r, 0, 0), [100, 100, 100, 100]);
    assert_eq!(pixel(&r, 3, 2), [100, 100, 100, 100]);
    assert_eq!(pixel(&r, 1, 3), [100, 100, 100, 100]);
}

#[test]
fn drawing_on_transparent_buffer_touches_only_covered_pixels() {
    let mut r = SoftwareRenderer::new(4, 4).unwrap();
    let g = square([255, 0, 0, 64]);
    r.draw_glyph(&g, 1, 3, TextColor::Named(NamedColor::Red));
    assert_eq!(pixel(&r, 1, 1), [255, 85, 85, 255]);
    assert_eq!(pixel(&r, 2, 2), [64, 21, 21, 255]);
    let mut touched = 0;
    for y in 0..4 {
        for x in 0..4 {
            if pixel(&r, x, y) != [0, 0, 0, 0] {
                touched += 1;
            }
        }
    }
    assert_eq!(touched, 2);
}

#[test]
fn glyph_box_follows_its_metrics() {
    let mut r = SoftwareRenderer::new(6, 6).unwrap();
    let g = RasterizedGlyph::new(2, -1, 1, 2, vec![255, 255]).unwrap();
    r.stamp_glyph(&g, 1, 4);
    assert_eq!(pixel(&r, 3, 3)[3], 255);
    assert_eq!(pixel(&r, 3, 4)[3], 255);
    assert_eq!(pixel(&r, 3, 2)[3], 0);
    assert_eq!(pixel(&r, 3, 5)[3], 0);
    assert_eq!(pixel(&r, 2, 3)[3], 0);
    assert_eq!(pixel(&r, 4, 3)[3], 0);
}

#[test]
fn pixels_outside_the_buffer_are_dropped() {
    let g = square([255, 255, 255, 255]);
    let mut r = SoftwareRenderer::new(3, 3).unwrap();
    r.draw_glyph(&g, -1, 1, TextColor::Named(NamedColor::White));
    assert_eq!(pixel(&r, 0, 0), [255, 255, 255, 255]);
    assert_eq!(pixel(&r, 1, 0), [0, 0, 0, 0]);
    assert_eq!(pixel(&r, 0, 1), [0, 0, 0, 0]);
    let mut r = SoftwareRenderer::new(3, 3).unwrap();
    r.draw_glyph(&g, 2, 4, TextColor::Named(NamedColor::White));
    assert_eq!(pixel(&r, 2, 2), [255, 255, 255, 255]);
    let mut r = SoftwareRenderer::new(3, 3).unwrap();
    for (x, y) in [(-5, 1), (10, 1), (0, -3), (0, 20), (i64::MAX, i64::MAX), (i64::MIN, i64::MIN), (i64::MAX, 0), (0, i64::MIN)] {
        r.draw_glyph(&g, x, y, TextColor::Named(NamedColor::White));
        r.stamp_glyph(&g, x, y);
        r.draw_text_glyph(&g, x, y, TextColor::Named(NamedColor::White), true);
    }
    assert_eq!(r.buffer(), &vec![0u8; 36]);
    let mut empty = SoftwareRenderer::new(0, 0).unwrap();
    empty.draw_glyph(&g, 0, 0, TextColor::Named(NamedColor::White));
    assert!(empty.buffer().is_empty());
}

#[test]
fn shadow_is_painted_before_the_glyph() {
    let g = RasterizedGlyph::new(0, 0, 2, 1, vec![255, 255]).unwrap();
    let mut r = SoftwareRenderer::new(4, 3).unwrap();
    r.draw_text_glyph(&g, 0, 1, TextColor::Rgb { r: 255, g: 255, b: 255 }, true);
    assert_eq!(pixel(&r, 0, 0), [255, 255, 255, 255]);
    assert_eq!(pixel(&r, 1, 0), [255, 255, 255, 255]);
    assert_eq!(pixel(&r, 1, 1), [63, 63, 63, 255]);
    assert_eq!(pixel(&r, 2, 1), [63, 63, 63, 255]);
    assert_eq!(pixel(&r, 0, 1), [0, 0, 0, 0]);
    assert_eq!(pixel(&r, 2, 0), [0, 0, 0, 0]);
    let mut r = SoftwareRenderer::new(4, 3).unwrap();
    r.draw_text_glyph(&g, 0, 1, TextColor::Rgb { r: 255, g: 255, b: 255 }, false);
    assert_eq!(pixel(&r, 1, 1), [0, 0, 0, 0]);
}

#[test]
fn later_shadow_may_cover_earlier_glyph_but_not_its_own() {
    let g = RasterizedGlyph::new(0, 0, 2, 2, vec![255; 4]).unwrap();
    let doc = McText::new().span("ab").color(TextColor::Rgb { r: 200, g: 100, b: 40 }).build();
    let glyphs = vec![
        PositionedGlyph { character: 'a', pen_x: 0, pen_y: 2 * 64, span_index: 0 },
        PositionedGlyph { character: 'b', pen_x: 64, pen_y: 2 * 64, span_index: 0 },
    ];
    let mut r = SoftwareRenderer::new(5, 4).unwrap();
    r.render_glyphs(&glyphs, &vec![g.clone(), g], &doc, 0, 0, true);
    assert_eq!(pixel(&r, 0, 0), [200, 100, 40, 255]);
    assert_eq!(pixel(&r, 1, 0), [200, 100, 40, 255]);
    assert_eq!(pixel(&r, 2, 0), [200, 100, 40, 255]);
    assert_eq!(pixel(&r, 1, 1), [200, 100, 40, 255]);
    assert_eq!(pixel(&r, 0, 1), [200, 100, 40, 255]);
    assert_eq!(pixel(&r, 3, 1), [50, 25, 10, 255]);
    assert_eq!(pixel(&r, 2, 2), [50, 25, 10, 255]);
    assert_eq!(pixel(&r, 1, 2), [50, 25, 10, 255]);
    assert_eq!(pixel(&r, 0, 2), [0, 0, 0, 0]);
    assert_eq!(pixel(&r, 3, 0), [0, 0, 0, 0]);
}

#[test]
fn text_without_color_is_white_and_origin_moves_the_block() {
    let g = RasterizedGlyph::new(0, 0, 1, 1, vec![255]).unwrap();
    let doc = McText::new().span("a").build();
    let glyphs = vec![PositionedGlyph { character: 'a', pen_x: 64 + 63, pen_y: 2 * 64, span_index: 0 }];
    let mut r = SoftwareRenderer::new(5, 5).unwrap();
    r.render_glyphs(&glyphs, &vec![g], &doc, 2, 1, false);
    assert_eq!(pixel(&r, 3, 2), [255, 255, 255, 255]);
    let mut count = 0;
    for y in 0..5 {
        for x in 0..5 {
            if pixel(&r, x, y)[3] != 0 {
                count += 1;
            }
        }
    }
    assert_eq!(count, 1);
    let g = RasterizedGlyph::new(0, 0, 1, 1, vec![255]).unwrap();
    let glyphs = vec![PositionedGlyph { character: 'a', pen_x: 0, pen_y: 64, span_index: 9 }];
    let mut r = SoftwareRenderer::new(1, 1).unwrap();
    r.render_glyphs(&glyphs, &vec![g], &doc, 0, 0, false);
    assert_eq!(pixel(&r, 0, 0), [255, 255, 255, 255]);
}

#[test]
fn pixel_of_counts_towards_zero() {
    assert_eq!(pixel_of(0), 0);
    assert_eq!(pixel_of(63), 0);
    assert_eq!(pixel_of(64), 1);
    assert_eq!(pixel_of(127), 1);
    assert_eq!(pixel_of(-1), 0);
    assert_eq!(pixel_of(-64), -1);
    assert_eq!(pixel_of(-65), -1);
    assert_eq!(pixel_of(i64::MIN), i64::MIN / 64);
    assert_eq!(pixel_of(i64::MAX), i64::MAX / 64);
}

#[test]
fn render_family_stamps_each_visible_character() {
    let dot = || RasterizedGlyph::new(0, 0, 1, 1, vec![200]).unwrap();
    let rasters = vec![dot(), dot(), dot(), dot()];
    let advances = vec![2 * 64, 999, 999, 3 * 64];
    // size 10 px: a space is 4 px wide; the tab is a control character.
    let r = render_family("a \tb", &advances, &rasters, 8, 3, 10 * 64, 2 * 64).unwrap();
    assert_eq!(r.width(), 8);
    assert_eq!(r.height(), 3);
    assert_eq!(pixel(&r, 0, 1), [255, 255, 255, 200]);
    assert_eq!(pixel(&r, 6, 1), [255, 255, 255, 200]);
    let mut count = 0;
    for y in 0..3 {
        for x in 0..8 {
            if pixel(&r, x, y) != [0, 0, 0, 0] {
                count += 1;
            }
        }
    }
    assert_eq!(count, 2);
    assert!(render_family("", &vec![], &vec![], usize::MAX, 2, 1, 1).is_none());
    assert_eq!(render_family("", &vec![], &vec![], 2, 2, 1, 1).unwrap().into_buffer(), vec![0u8; 16]);
}

#[test]
fn render_family_cuts_to_a_pixel_after_adding_the_offsets() {
    // Ascent of half a pixel, glyph one pixel high: -0.5 is cut to row 0.
    let dot = RasterizedGlyph::new(0, 0, 1, 1, vec![200]).unwrap();
    let r = render_family("A", &vec![64], &vec![dot], 1, 1, 640, 32).unwrap();
    assert_eq!(r.into_buffer(), vec![255, 255, 255, 200]);
    // Pen at half a pixel, glyph one pixel to the left of the pen: -0.5 is
    // cut to column 0.
    let dot = || RasterizedGlyph::new(-1, 0, 1, 1, vec![90]).unwrap();
    let r = render_family("ab", &vec![32, 64], &vec![dot(), dot()], 2, 1, 640, 64).unwrap();
    assert_eq!(r.into_buffer(), vec![255, 255, 255, 90, 0, 0, 0, 0]);
    // A whole pixel further left falls outside.
    let far = RasterizedGlyph::new(-2, 0, 1, 1, vec![90]).unwrap();
    let r = render_family("a", &vec![0], &vec![far], 2, 1, 640, 64).unwrap();
    assert_eq!(r.into_buffer(), vec![0u8; 8]);
    // Below the baseline: ymin -1 moves the box one row down.
    let low = RasterizedGlyph::new(0, -1, 1, 1, vec![7]).unwrap();
    let r = render_family("a", &vec![0], &vec![low], 1, 3, 640, 96).unwrap();
    assert_eq!(r.into_buffer(), vec![0, 0, 0, 0, 255, 255, 255, 7, 0, 0, 0, 0]);
}

#[test]
fn render_family_buffer_has_four_bytes_for_each_pixel() {
    let dot = || RasterizedGlyph::new(0, 0, 1, 1, vec![200]).unwrap();
    assert_eq!(render_family("", &vec![], &vec![], 3, 2, 512, 100).unwrap().into_buffer(), vec![0u8; 24]);
    let r = render_family("A", &vec![64], &vec![dot()], 0, 5, 1024, 100).unwrap();
    assert_eq!(r.width(), 0);
    assert_eq!(r.height(), 5);
    assert!(r.buffer().is_empty());
    let blank = " \n\t ";
    let rasters = vec![dot(), dot(), dot(), dot()];
    let r = render_family(blank, &vec![9, 9, 9, 9], &rasters, 4, 3, 640, 128).unwrap();
    assert_eq!(r.into_buffer(), vec![0u8; 48]);
    for (w, h) in [(1usize, 1usize), (7, 3), (0, 0), (16, 16)] {
        let r = render_family("ab", &vec![64, 64], &vec![dot(), dot()], w, h, 640, 64).unwrap();
        assert_eq!(r.buffer().len(), 4 * w * h);
        for px in r.buffer().chunks(4) {
            assert!(px == [0, 0, 0, 0] || (px[..3] == [255, 255, 255] && px[3] > 0));
        }
    }
}

#[test]
fn render_family_ignores_control_characters() {
    let dot = |c: u8| RasterizedGlyph::new(0, 0, 1, 1, vec![c]).unwrap();
    let with = render_family(
        "a\u{1}b\n c",
        &vec![64, 500, 128, 500, 1, 64],
        &vec![dot(10), dot(99), dot(20), dot(99), dot(99), dot(30)],
        12,
        2,
        640,
        64,
    )
    .unwrap();
    let without = render_family(
        "ab c",
        &vec![64, 128, 1, 64],
        &vec![dot(10), dot(20), dot(99), dot(30)],
        12,
        2,
        640,
        64,
    )
    .unwrap();
    assert_eq!(with.buffer(), without.buffer());
    assert_eq!(with.buffer()[3], 10);
    assert_eq!(with.buffer()[4 + 3], 20);
    assert_eq!(with.buffer()[4 * 7 + 3], 30);
}

#[test]
fn text_glyph_boxes_are_cut_to_a_pixel_after_adding_the_offsets() {
    let doc = McText::new().span("a").build();
    let g = RasterizedGlyph::new(-1, 0, 1, 1, vec![255]).unwrap();
    // Pen at half a pixel in both directions, glyph one pixel left of the
    // pen and one pixel high: the corner (-0.5, -0.5) is cut to (0, 0).
    let glyphs = vec![PositionedGlyph { character: 'a', pen_x: 32, pen_y: 32, span_index: 0 }];
    let mut r = SoftwareRenderer::new(2, 2).unwrap();
    r.render_glyphs(&glyphs, &vec![g.clone()], &doc, 0, 0, false);
    assert_eq!(pixel(&r, 0, 0), [255, 255, 255, 255]);
    assert_eq!(pixel(&r, 1, 0), [0, 0, 0, 0]);
    assert_eq!(pixel(&r, 0, 1), [0, 0, 0, 0]);
    // With the block one pixel to the right and down the corner is (0.5, 0.5),
    // which is cut to (0, 0) as well.
    let mut r = SoftwareRenderer::new(2, 2).unwrap();
    r.render_glyphs(&glyphs, &vec![g], &doc, 1, 1, false);
    assert_eq!(pixel(&r, 0, 0), [255, 255, 255, 255]);
    assert_eq!(pixel(&r, 1, 1), [0, 0, 0, 0]);
}

#[test]
fn painting_keeps_the_size_of_the_buffer() {
    let g = square([255, 0, 9, 255]);
    let doc = McText::new().span("a").build();
    let mut r = SoftwareRenderer::new(3, 2).unwrap();
    assert_eq!(r.buffer().len(), 24);
    r.draw_glyph(&g, 0, 2, TextColor::Named(NamedColor::Red));
    assert_eq!(r.buffer().len(), 24);
    r.stamp_glyph(&g, 1, 2);
    assert_eq!(r.buffer().len(), 24);
    r.draw_text_glyph(&g, 5, 5, TextColor::Named(NamedColor::Red), true);
    assert_eq!(r.buffer().len(), 24);
    r.render_glyphs(&vec![], &vec![], &doc, 0, 0, true);
    assert_eq!(r.into_buffer().len(), 24);
    let mut r = SoftwareRenderer::new(2, 2).unwrap();
    r.render_glyphs(&vec![], &vec![], &McText::new(), 0, 0, false);
    assert_eq!(r.into_buffer(), vec![0u8; 16]);
}

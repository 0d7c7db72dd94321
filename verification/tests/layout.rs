use mctext::layout::{glyph_requests, measure, GlyphRequest};
use mctext::system::{advance_of, measure_text};
use mctext::{
    FontVariant, LayoutEngine, LayoutOptions, LineMetrics, McText, MeasuredChar, PositionedGlyph,
    TextAlign,
};

const PX: u32 = 64;

fn metrics() -> LineMetrics {
    LineMetrics { ascent: 14 * PX, descent: 2 * PX }
}

// Every letter is 6 px wide; a space is `size * 2 / 5`.
fn chars_of(text: &str, size: u32) -> Vec<MeasuredChar> {
    text.chars()
        .map(|c| MeasuredChar { character: c, advance: advance_of(c, size, 6 * PX), span_index: 0 })
        .collect()
}

fn glyph(c: char, x: i64, y: i64) -> PositionedGlyph {
    PositionedGlyph { character: c, pen_x: x * 64, pen_y: y * 64, span_index: 0 }
}

#[test]
fn options_builders() {
    let o = LayoutOptions::new(16);
    assert_eq!(o.size, 16);
    assert_eq!(o.max_width, None);
    assert!(!o.shadow);
    assert_eq!(o.align, TextAlign::Left);
    assert!(o.line_spacing < 0);
    let o = o.with_max_width(300).with_shadow(true).with_align(TextAlign::Right).with_line_spacing(20);
    assert_eq!(o.max_width, Some(300));
    assert!(o.shadow);
    assert_eq!(o.align, TextAlign::Right);
    assert_eq!(o.line_spacing, 20);
    assert_eq!(o.size, 16);
}

#[test]
fn a_b_wraps_when_only_a_fits() {
    let size = 10 * PX;
    let chars = chars_of("a b", size);
    let width_of_a = 6 * PX;
    let options = LayoutOptions::new(size).with_max_width(width_of_a + 1);
    let layout = LayoutEngine::layout(&chars, metrics(), &options);
    assert_eq!(layout.line_count(), 2);
    assert_eq!(layout.lines[0].glyphs, vec![glyph('a', 0, 14)]);
    assert_eq!(layout.lines[0].width, 6 * 64);
    assert_eq!(layout.lines[1].glyphs, vec![glyph('b', 0, 30)]);
    assert_eq!(layout.lines[1].width, 6 * 64);
}

#[test]
fn a_b_stays_on_one_line_when_it_fits_exactly() {
    let size = 10 * PX;
    let chars = chars_of("a b", size);
    let options = LayoutOptions::new(size).with_max_width(16 * PX);
    let layout = LayoutEngine::layout(&chars, metrics(), &options);
    assert_eq!(layout.line_count(), 1);
    assert_eq!(layout.lines[0].glyphs, vec![glyph('a', 0, 14), glyph('b', 10, 14)]);
    assert_eq!(layout.lines[0].width, 16 * 64);
    let options = LayoutOptions::new(size).with_max_width(16 * PX - 1);
    assert_eq!(LayoutEngine::layout(&chars, metrics(), &options).line_count(), 2);
}

#[test]
fn without_limit_everything_is_one_line() {
    let size = 10 * PX;
    let chars = chars_of("aa bb  cc", size);
    let layout = LayoutEngine::layout(&chars, metrics(), &LayoutOptions::new(size));
    assert_eq!(layout.line_count(), 1);
    assert_eq!(
        layout.glyphs(),
        vec![glyph('a', 0, 14), glyph('a', 6, 14), glyph('b', 16, 14), glyph('b', 22, 14), glyph('c', 36, 14), glyph('c', 42, 14)]
    );
    assert_eq!(layout.lines[0].width, 48 * 64);
    assert_eq!(layout.width(), 48 * 64);
}

#[test]
fn oversized_word_stands_alone_and_overflows() {
    let size = 10 * PX;
    let chars = chars_of("a bbbbb c", size);
    let options = LayoutOptions::new(size).with_max_width(12 * PX);
    let layout = LayoutEngine::layout(&chars, metrics(), &options);
    assert_eq!(layout.line_count(), 3);
    assert_eq!(layout.lines[0].width, 6 * 64);
    assert_eq!(layout.lines[1].width, 30 * 64);
    assert_eq!(layout.lines[1].glyphs.len(), 5);
    assert_eq!(layout.lines[2].glyphs, vec![glyph('c', 0, 46)]);
    let chars = chars_of("bbbbb", size);
    let layout = LayoutEngine::layout(&chars, metrics(), &options);
    assert_eq!(layout.line_count(), 1);
    assert_eq!(layout.lines[0].width, 30 * 64);
}

#[test]
fn leading_and_trailing_white_space_take_no_room() {
    let size = 10 * PX;
    let chars = chars_of("  a  ", size);
    let layout = LayoutEngine::layout(&chars, metrics(), &LayoutOptions::new(size));
    assert_eq!(layout.line_count(), 1);
    assert_eq!(layout.lines[0].glyphs, vec![glyph('a', 0, 14)]);
    assert_eq!(layout.lines[0].width, 6 * 64);
}

#[test]
fn empty_text_is_one_empty_line() {
    let layout = LayoutEngine::layout(&Vec::new(), metrics(), &LayoutOptions::new(16 * PX));
    assert_eq!(layout.line_count(), 1);
    assert!(layout.lines[0].glyphs.is_empty());
    assert_eq!(layout.lines[0].width, 0);
    assert!(layout.glyphs().is_empty());
    let layout = LayoutEngine::layout(&chars_of("   ", 640), metrics(), &LayoutOptions::new(640));
    assert_eq!(layout.line_count(), 1);
    assert_eq!(layout.lines[0].width, 0);
}

#[test]
fn control_characters_leave_no_glyph() {
    let size = 10 * PX;
    let chars = chars_of("a\u{1}b\tc", size);
    assert_eq!(chars[1].advance, 0);
    assert_eq!(chars[3].advance, 0);
    let layout = LayoutEngine::layout(&chars, metrics(), &LayoutOptions::new(size));
    assert_eq!(layout.glyphs(), vec![glyph('a', 0, 14), glyph('b', 6, 14), glyph('c', 12, 14)]);
}

#[test]
fn line_spacing_sets_the_distance_between_baselines() {
    let size = 10 * PX;
    let chars = chars_of("a b c", size);
    let options = LayoutOptions::new(size).with_max_width(1).with_line_spacing((20 * PX) as i32);
    let layout = LayoutEngine::layout(&chars, metrics(), &options);
    assert_eq!(layout.line_count(), 3);
    assert_eq!(layout.lines[0].glyphs[0].pen_y, 14 * 64);
    assert_eq!(layout.lines[1].glyphs[0].pen_y, 34 * 64);
    assert_eq!(layout.lines[2].glyphs[0].pen_y, 54 * 64);
    let options = LayoutOptions::new(size).with_max_width(1).with_line_spacing(0);
    let layout = LayoutEngine::layout(&chars, metrics(), &options);
    assert_eq!(layout.lines[2].glyphs[0].pen_y, 14 * 64);
}

#[test]
fn alignment_against_the_limit() {
    let size = 10 * PX;
    let chars = chars_of("a bb", size);
    let base = LayoutOptions::new(size).with_max_width(13 * PX);
    let left = LayoutEngine::layout(&chars, metrics(), &base);
    assert_eq!(left.lines[0].glyphs[0].pen_x, 0);
    assert_eq!(left.lines[1].glyphs[0].pen_x, 0);
    let right = LayoutEngine::layout(&chars, metrics(), &base.with_align(TextAlign::Right));
    assert_eq!(right.lines[0].glyphs[0].pen_x, 7 * 64);
    assert_eq!(right.lines[1].glyphs[0].pen_x, 64);
    assert_eq!(right.lines[1].glyphs[1].pen_x, 7 * 64);
    let center = LayoutEngine::layout(&chars, metrics(), &base.with_align(TextAlign::Center));
    assert_eq!(center.lines[0].glyphs[0].pen_x, 7 * 32);
    assert_eq!(center.lines[1].glyphs[0].pen_x, 32);
    assert_eq!(center.lines[0].width, 6 * 64);
}

#[test]
fn alignment_without_limit_uses_the_widest_line() {
    let size = 10 * PX;
    let chars = chars_of("ab", size);
    let options = LayoutOptions::new(size).with_align(TextAlign::Right);
    let layout = LayoutEngine::layout(&chars, metrics(), &options);
    assert_eq!(layout.lines[0].glyphs[0].pen_x, 0);
    let options = LayoutOptions::new(size).with_align(TextAlign::Center);
    let layout = LayoutEngine::layout(&chars, metrics(), &options);
    assert_eq!(layout.lines[0].glyphs[0].pen_x, 0);
}

#[test]
fn overflowing_line_is_centered_towards_zero() {
    let size = 10 * PX;
    let chars: Vec<MeasuredChar> =
        vec![MeasuredChar { character: 'w', advance: 13, span_index: 0 }];
    let options = LayoutOptions::new(size).with_max_width(10).with_align(TextAlign::Center);
    let layout = LayoutEngine::layout(&chars, metrics(), &options);
    assert_eq!(layout.lines[0].glyphs[0].pen_x, -1);
    let options = options.with_align(TextAlign::Right);
    let layout = LayoutEngine::layout(&chars, metrics(), &options);
    assert_eq!(layout.lines[0].glyphs[0].pen_x, -3);
}

#[test]
fn layout_is_deterministic() {
    let size = 12 * PX;
    let chars = chars_of("the quick brown fox jumps over the lazy dog", size);
    let options = LayoutOptions::new(size).with_max_width(80 * PX).with_align(TextAlign::Center);
    let a = LayoutEngine::layout(&chars, metrics(), &options);
    let b = LayoutEngine::layout(&chars, metrics(), &options);
    assert_eq!(a, b);
    assert!(a.line_count() > 1);
    for line in &a.lines {
        assert!(line.width <= 80 * 64);
    }
    let total: usize = a.lines.iter().map(|l| l.glyphs.len()).sum();
    assert_eq!(total, 35);
    assert_eq!(a.glyphs().len(), 35);
}

#[test]
fn requests_carry_variant_and_span() {
    let doc = McText::new().span("ab").bold().then("c").italic().bold().then("d").build();
    let requests = glyph_requests(&doc);
    assert_eq!(
        requests,
        vec![
            GlyphRequest { character: 'a', variant: FontVariant::Bold, span_index: 0 },
            GlyphRequest { character: 'b', variant: FontVariant::Bold, span_index: 0 },
            GlyphRequest { character: 'c', variant: FontVariant::BoldItalic, span_index: 1 },
            GlyphRequest { character: 'd', variant: FontVariant::Regular, span_index: 2 },
        ]
    );
    assert!(glyph_requests(&McText::new()).is_empty());
}

#[test]
fn measure_applies_the_effective_advance() {
    let doc = McText::new().span("a \n").build();
    let requests = glyph_requests(&doc);
    let measured = measure(&requests, &vec![400, 999, 999], 1000);
    assert_eq!(
        measured,
        vec![
            MeasuredChar { character: 'a', advance: 400, span_index: 0 },
            MeasuredChar { character: ' ', advance: 400, span_index: 0 },
            MeasuredChar { character: '\n', advance: 0, span_index: 0 },
        ]
    );
}

#[test]
fn effective_advance_values() {
    assert_eq!(advance_of('x', 1024, 700), 700);
    assert_eq!(advance_of(' ', 1024, 700), 409);
    assert_eq!(advance_of(' ', 16 * 64, 0), 409);
    assert_eq!(advance_of(' ', u32::MAX, 0), 1717986918);
    assert_eq!(advance_of('\u{7f}', 1024, 700), 0);
    assert_eq!(advance_of('\u{9f}', 1024, 700), 0);
    assert_eq!(advance_of('\u{a0}', 1024, 700), 700);
    assert_eq!(advance_of('\u{0}', 1024, 700), 0);
}

#[test]
fn measure_text_sums_effective_advances() {
    assert_eq!(measure_text("", &vec![], 1000), 0);
    assert_eq!(measure_text("ab", &vec![300, 500], 1000), 800);
    assert_eq!(measure_text("a b\u{1}", &vec![300, 1, 500, 77], 1000), 1200);
    assert_eq!(measure_text("\u{e9}\u{1f600}", &vec![u32::MAX, u32::MAX], 1), 2 * (u32::MAX as u64));
}

#[test]
fn layout_text_measures_and_lays_out() {
    let doc = McText::new().span("a b").bold().then("c").build();
    let size = 10 * PX;
    let options = LayoutOptions::new(size).with_max_width(13 * PX);
    let advances = vec![6 * PX, 77, 6 * PX, 6 * PX];
    let layout = LayoutEngine::layout_text(&doc, &advances, metrics(), &options).unwrap();
    assert_eq!(layout.line_count(), 2);
    assert_eq!(layout.lines[0].glyphs, vec![glyph('a', 0, 14)]);
    assert_eq!(
        layout.lines[1].glyphs,
        vec![
            PositionedGlyph { character: 'b', pen_x: 0, pen_y: 30 * 64, span_index: 0 },
            PositionedGlyph { character: 'c', pen_x: 6 * 64, pen_y: 30 * 64, span_index: 1 },
        ]
    );
    let requests = glyph_requests(&doc);
    let chars = measure(&requests, &advances, size);
    assert_eq!(LayoutEngine::layout(&chars, metrics(), &options), layout);
    assert!(LayoutEngine::layout_text(&doc, &vec![1, 2, 3], metrics(), &options).is_none());
    assert!(LayoutEngine::layout_text(&doc, &vec![1, 2, 3, 4, 5], metrics(), &options).is_none());
    assert!(LayoutEngine::layout_text(&McText::new(), &vec![], metrics(), &options).is_some());
}

#[test]
fn glyph_variants_follow_the_spans() {
    let doc = McText::new().span("a b").bold().then("c").italic().then("d").build();
    let advances = vec![6 * PX, 0, 6 * PX, 6 * PX, 6 * PX];
    let options = LayoutOptions::new(10 * PX).with_max_width(13 * PX);
    let layout = LayoutEngine::layout_text(&doc, &advances, metrics(), &options).unwrap();
    let glyphs = layout.glyphs();
    assert_eq!(glyphs.len(), 4);
    assert_eq!(
        mctext::layout::glyph_variants(&doc, &glyphs),
        vec![FontVariant::Bold, FontVariant::Bold, FontVariant::Italic, FontVariant::Regular]
    );
    for g in &glyphs {
        assert!(g.span_index < doc.len());
    }
    let stray = vec![PositionedGlyph { character: 'x', pen_x: 0, pen_y: 0, span_index: 7 }];
    assert_eq!(mctext::layout::glyph_variants(&doc, &stray), vec![FontVariant::Regular]);
    assert!(mctext::layout::glyph_variants(&doc, &vec![]).is_empty());
}

//! The layout engine: measured characters are broken into lines, aligned,
//! and given pen positions.
//!
//! All lengths are whole numbers of subpixels, `SUBPIXELS` to the pixel.

use vstd::prelude::*;
use crate::chars::{chars_of, is_control, is_control_char, is_space, is_space_char};
use crate::fonts::FontVariant;
use crate::system::{advance_of, effective_advance};
use crate::text::{span_views, McText, SpanView};

verus! {

/// The number of layout units in one pixel.
pub const SUBPIXELS: i64 = 64;

/// The largest number of characters that one layout takes: with more, pen
/// positions might not fit the machine's integers.
pub const MAX_GLYPHS: usize = 0x1000_0000;

/// How the lines of a layout are placed between the left and right edge.
#[derive(Debug, Clone, Copy, PartialEq, Eq, Hash, Structural)]
pub enum TextAlign {
    Left,
    Center,
    Right,
}

/// What a layout is made for.
#[derive(Debug, Clone, Copy, PartialEq, Eq, Structural)]
pub struct LayoutOptions {
    /// The font size.
    pub size: u32,
    /// The width at which lines are broken, if any.
    pub max_width: Option<u32>,
    /// Whether a drop shadow is painted.
    pub shadow: bool,
    pub align: TextAlign,
    /// The distance from one baseline to the next; a negative value asks
    /// for the font's own line height.
    pub line_spacing: i32,
}

impl LayoutOptions {
    /// The options that `new` gives for a size.
    pub open spec fn spec_new(size: u32) -> LayoutOptions {
        LayoutOptions {
            size,
            max_width: None,
            shadow: false,
            align: TextAlign::Left,
            line_spacing: -1i32,
        }
    }

    /// No line breaking, no shadow, aligned left, the font's line height.
    pub fn new(size: u32) -> (o: LayoutOptions)
        ensures
            o == Self::spec_new(size),
    {
        LayoutOptions {
            size,
            max_width: None,
            shadow: false,
            align: TextAlign::Left,
            line_spacing: -1,
        }
    }

    pub fn with_max_width(self, width: u32) -> (o: LayoutOptions)
        ensures
            o == (LayoutOptions { max_width: Some(width), ..self }),
    {
        LayoutOptions { max_width: Some(width), ..self }
    }

    pub fn with_shadow(self, shadow: bool) -> (o: LayoutOptions)
        ensures
            o == (LayoutOptions { shadow, ..self }),
    {
        LayoutOptions { shadow, ..self }
    }

    pub fn with_align(self, align: TextAlign) -> (o: LayoutOptions)
        ensures
            o == (LayoutOptions { align, ..self }),
    {
        LayoutOptions { align, ..self }
    }

    pub fn with_line_spacing(self, line_spacing: i32) -> (o: LayoutOptions)
        ensures
            o == (LayoutOptions { line_spacing, ..self }),
    {
        LayoutOptions { line_spacing, ..self }
    }
}

/// The line metrics of the regular face at the layout's size: how far
/// glyphs reach above the baseline and how far below it.
#[derive(Debug, Clone, Copy, PartialEq, Eq, Structural)]
pub struct LineMetrics {
    pub ascent: u32,
    pub descent: u32,
}

/// A character with the width by which it moves the pen, and the span it
/// comes from.
#[derive(Debug, Clone, Copy, PartialEq, Eq, Structural)]
pub struct MeasuredChar {
    pub character: char,
    pub advance: u32,
    pub span_index: usize,
}

/// A glyph with its pen position: `pen_x` from the left edge of the text
/// block, `pen_y` the baseline, from the top of the block.
#[derive(Debug, Clone, Copy, PartialEq, Eq, Structural)]
pub struct PositionedGlyph {
    pub character: char,
    pub pen_x: i64,
    pub pen_y: i64,
    pub span_index: usize,
}

/// One line of a layout: its glyphs from left to right, and its width.
#[derive(Debug, PartialEq, Eq)]
pub struct LayoutLine {
    pub glyphs: Vec<PositionedGlyph>,
    pub width: i64,
}

/// What a line holds, as a mathematical value.
pub struct LineView {
    pub glyphs: Seq<PositionedGlyph>,
    pub width: int,
}

impl LineView {
    pub open spec fn of(glyphs: Seq<PositionedGlyph>, width: int) -> LineView {
        LineView { glyphs, width }
    }

    pub open spec fn blank() -> LineView {
        LineView { glyphs: Seq::empty(), width: 0 }
    }
}

impl View for LayoutLine {
    type V = LineView;

    open spec fn view(&self) -> LineView {
        LineView { glyphs: self.glyphs@, width: self.width as int }
    }
}

/// The lines of a laid-out text, from the top.
#[derive(Debug, PartialEq, Eq)]
pub struct TextLayout {
    pub lines: Vec<LayoutLine>,
}

/// The views of a vector of lines.
pub open spec fn line_views(lines: Seq<LayoutLine>) -> Seq<LineView> {
    Seq::new(lines.len(), |i: int| lines[i]@)
}

impl View for TextLayout {
    type V = Seq<LineView>;

    open spec fn view(&self) -> Seq<LineView> {
        line_views(self.lines@)
    }
}

/// A character that leaves a mark: neither white space nor a control
/// character.
pub open spec fn visible(c: char) -> bool {
    !is_space(c) && !is_control(c)
}

/// The width of the rest of the word from place `i` on: the advances up to
/// the next white space.
pub open spec fn word_width(chars: Seq<MeasuredChar>, i: int) -> int
    decreases chars.len() - i,
{
    if i < 0 || i >= chars.len() || is_space(chars[i].character) {
        0
    } else {
        chars[i].advance + word_width(chars, i + 1)
    }
}

/// Whether a line of the given width is within the limit.
pub open spec fn fits(width: int, max_width: Option<u32>) -> bool {
    match max_width {
        None => true,
        Some(m) => width <= m,
    }
}

/// The glyph of a character at the pen position `x` of its line; the
/// baseline is set when the lines are arranged.
pub open spec fn glyph_at(m: MeasuredChar, x: int) -> PositionedGlyph {
    PositionedGlyph {
        character: m.character,
        pen_x: x as i64,
        pen_y: 0,
        span_index: m.span_index,
    }
}

/// Where the breaking of lines stands: the lines so far, of which the last
/// is being filled; the pen position on it; the width of the white space
/// seen since the last word; whether the last character belonged to a
/// word; and whether no word has been placed yet.
pub struct Flow {
    pub lines: Seq<LineView>,
    pub x: int,
    pub gap: int,
    pub in_word: bool,
    pub fresh: bool,
}

impl Flow {
    pub open spec fn start() -> Flow {
        Flow { lines: seq![LineView::blank()], x: 0, gap: 0, in_word: false, fresh: true }
    }

    /// The flow when a word of width `w` begins. The first word of the text
    /// stands at the start of the first line. Any other word follows the
    /// white space before it on the same line if the line then stays within
    /// the limit, and else starts a new line, on which it stands however
    /// wide it is.
    pub open spec fn open_word(self, w: int, max_width: Option<u32>) -> Flow {
        if self.fresh {
            Flow { gap: 0, in_word: true, fresh: false, ..self }
        } else if fits(self.x + self.gap + w, max_width) {
            Flow { x: self.x + self.gap, gap: 0, in_word: true, ..self }
        } else {
            Flow { lines: self.lines.push(LineView::blank()), x: 0, gap: 0, in_word: true, ..self }
        }
    }

    /// The flow after a character of a word: a visible character leaves a
    /// glyph at the pen, and the pen and the line's width move on by the
    /// advance.
    pub open spec fn put(self, m: MeasuredChar) -> Flow {
        let line = self.lines.last();
        let glyphs = if visible(m.character) {
            line.glyphs.push(glyph_at(m, self.x))
        } else {
            line.glyphs
        };
        let x = self.x + m.advance;
        Flow { lines: self.lines.drop_last().push(LineView::of(glyphs, x)), x, ..self }
    }

    /// The flow after the character at place `i`: white space widens the
    /// gap; any other character belongs to a word, which it opens where the
    /// character before it was white space.
    pub open spec fn step(self, chars: Seq<MeasuredChar>, i: int, max_width: Option<u32>) -> Flow {
        let m = chars[i];
        if is_space(m.character) {
            Flow { gap: self.gap + m.advance, in_word: false, ..self }
        } else if self.in_word {
            self.put(m)
        } else {
            self.open_word(word_width(chars, i), max_width).put(m)
        }
    }
}

/// The flow after the first `n` characters.
pub open spec fn flow(chars: Seq<MeasuredChar>, max_width: Option<u32>, n: nat) -> Flow
    decreases n,
{
    if n == 0 {
        Flow::start()
    } else {
        flow(chars, max_width, (n - 1) as nat).step(chars, n - 1, max_width)
    }
}

/// The width of the widest line.
pub open spec fn widest(lines: Seq<LineView>) -> int
    decreases lines.len(),
{
    if lines.len() == 0 {
        0
    } else if lines.last().width > widest(lines.drop_last()) {
        lines.last().width
    } else {
        widest(lines.drop_last())
    }
}

/// The width against which lines are aligned: the limit where there is
/// one, and else the width of the widest line.
pub open spec fn reference_width(lines: Seq<LineView>, max_width: Option<u32>) -> int {
    match max_width {
        Some(m) => m as int,
        None => widest(lines),
    }
}

/// Half of a length, rounded towards zero.
pub open spec fn half(d: int) -> int {
    if d >= 0 {
        d / 2
    } else {
        -((-d) / 2)
    }
}

/// How far a line of the given width is moved to the right.
pub open spec fn align_offset(align: TextAlign, reference: int, width: int) -> int {
    match align {
        TextAlign::Left => 0,
        TextAlign::Center => half(reference - width),
        TextAlign::Right => reference - width,
    }
}

/// The distance from one baseline to the next.
pub open spec fn line_height(metrics: LineMetrics, line_spacing: i32) -> int {
    if line_spacing < 0 {
        metrics.ascent + metrics.descent
    } else {
        line_spacing as int
    }
}

/// The baseline of line `k`: the first lies one ascent below the top.
pub open spec fn baseline(metrics: LineMetrics, line_spacing: i32, k: int) -> int {
    metrics.ascent + k * line_height(metrics, line_spacing)
}

/// A glyph moved to the right by `dx` and set on the baseline `y`.
pub open spec fn place_glyph(g: PositionedGlyph, dx: int, y: int) -> PositionedGlyph {
    PositionedGlyph {
        character: g.character,
        pen_x: (g.pen_x + dx) as i64,
        pen_y: y as i64,
        span_index: g.span_index,
    }
}

/// A line moved to the right by `dx` and set on the baseline `y`.
pub open spec fn place_line(line: LineView, dx: int, y: int) -> LineView {
    LineView::of(Seq::new(line.glyphs.len(), |i: int| place_glyph(line.glyphs[i], dx, y)), line.width)
}

/// Line `k` of the lines, aligned and set on its baseline.
pub open spec fn arranged_line(
    lines: Seq<LineView>,
    metrics: LineMetrics,
    options: LayoutOptions,
    k: int,
) -> LineView {
    place_line(
        lines[k],
        align_offset(
            options.align,
            reference_width(lines, options.max_width),
            lines[k].width,
        ),
        baseline(metrics, options.line_spacing, k),
    )
}

/// The lines, each aligned and set on its baseline.
pub open spec fn arranged(lines: Seq<LineView>, metrics: LineMetrics, options: LayoutOptions) -> Seq<
    LineView,
> {
    Seq::new(lines.len(), |k: int| arranged_line(lines, metrics, options, k))
}

/// The layout of the measured characters.
pub open spec fn spec_layout(
    chars: Seq<MeasuredChar>,
    metrics: LineMetrics,
    options: LayoutOptions,
) -> Seq<LineView> {
    arranged(flow(chars, options.max_width, chars.len()).lines, metrics, options)
}

/// The widest that a line of `MAX_GLYPHS` characters can be.
pub open spec fn width_limit() -> int {
    MAX_GLYPHS as int * 0xffff_ffff
}

/// A line whose width and pen positions lie between zero and the limit.
pub open spec fn line_bounded(line: LineView) -> bool {
    &&& 0 <= line.width <= width_limit()
    &&& forall|j: int|
        0 <= j < line.glyphs.len() ==> 0 <= (#[trigger] line.glyphs[j]).pen_x <= width_limit()
}

/// Lines that are all bounded.
pub open spec fn lines_bounded(lines: Seq<LineView>) -> bool {
    forall|k: int| 0 <= k < lines.len() ==> line_bounded(#[trigger] lines[k])
}

/// The views of a vector of lines grow by a line's view when the line is
/// appended.
proof fn lemma_line_views_push(lines: Seq<LayoutLine>, line: LayoutLine)
    ensures
        line_views(lines.push(line)) == line_views(lines).push(line@),
{
    assert(line_views(lines.push(line)) =~= line_views(lines).push(line@));
}

/// The width of the word that begins at place `i`.
fn measure_word(chars: &Vec<MeasuredChar>, i: usize) -> (w: i64)
    requires
        i < chars.len() <= MAX_GLYPHS,
    ensures
        w == word_width(chars@, i as int),
        0 <= w <= (chars.len() - i) * 0xffff_ffff,
{
    let mut j: usize = i;
    let mut w: i64 = 0;
    while j < chars.len() && !is_space_char(chars[j].character)
        invariant
            i <= j <= chars.len() <= MAX_GLYPHS,
            w + word_width(chars@, j as int) == word_width(chars@, i as int),
            0 <= w <= (j - i) * 0xffff_ffff,
        decreases chars.len() - j,
    {
        w += chars[j].advance as i64;
        j += 1;
    }
    w
}

/// Breaks the characters into lines; pen positions are relative to the
/// start of each line, and no baseline is set yet.
fn break_lines(chars: &Vec<MeasuredChar>, max_width: Option<u32>) -> (lines: Vec<LayoutLine>)
    requires
        chars.len() <= MAX_GLYPHS,
    ensures
        line_views(lines@) == flow(chars@, max_width, chars.len() as nat).lines,
        1 <= lines.len() <= chars.len() + 1,
        lines_bounded(line_views(lines@)),
{
    let mut done: Vec<LayoutLine> = Vec::new();
    let mut cur: Vec<PositionedGlyph> = Vec::new();
    let mut cur_width: i64 = 0;
    let mut x: i64 = 0;
    let mut gap: i64 = 0;
    let mut in_word = false;
    let mut fresh = true;
    let mut i: usize = 0;
    assert(line_views(done@).push(LineView::of(cur@, cur_width as int)) =~= Flow::start().lines);
    while i < chars.len()
        invariant
            i <= chars.len() <= MAX_GLYPHS,
            done.len() <= i,
            0 <= x,
            0 <= gap,
            x + gap <= i * 0xffff_ffff,
            flow(chars@, max_width, i as nat) == (Flow {
                lines: line_views(done@).push(LineView::of(cur@, cur_width as int)),
                x: x as int,
                gap: gap as int,
                in_word,
                fresh,
            }),
            lines_bounded(line_views(done@)),
            line_bounded(LineView::of(cur@, cur_width as int)),
        decreases chars.len() - i,
    {
        let m = chars[i];
        let ghost before = flow(chars@, max_width, i as nat);
        assert(i * 0xffff_ffff <= width_limit()) by (nonlinear_arith)
            requires
                i <= MAX_GLYPHS,
        ;
        if is_space_char(m.character) {
            gap += m.advance as i64;
            in_word = false;
        } else {
            if !in_word {
                let w = measure_word(chars, i);
                assert((chars.len() - i) * 0xffff_ffff + i * 0xffff_ffff <= width_limit())
                    by (nonlinear_arith)
                    requires
                        i <= chars.len() <= MAX_GLYPHS,
                ;
                let stays = fresh || match max_width {
                    None => true,
                    Some(limit) => x + gap + w <= limit as i64,
                };
                if fresh {
                    fresh = false;
                } else if stays {
                    x = x + gap;
                } else {
                    let line = LayoutLine { glyphs: cur, width: cur_width };
                    proof {
                        lemma_line_views_push(done@, line);
                    }
                    done.push(line);
                    cur = Vec::new();
                    cur_width = 0;
                    x = 0;
                }
                gap = 0;
                in_word = true;
                assert((Flow {
                    lines: line_views(done@).push(LineView::of(cur@, cur_width as int)),
                    x: x as int,
                    gap: gap as int,
                    in_word,
                    fresh,
                }) == before.open_word(word_width(chars@, i as int), max_width));
            }
            let ghost opened = Flow {
                lines: line_views(done@).push(LineView::of(cur@, cur_width as int)),
                x: x as int,
                gap: gap as int,
                in_word,
                fresh,
            };
            if !is_space_char(m.character) && !is_control_char(m.character) {
                cur.push(
                    PositionedGlyph {
                        character: m.character,
                        pen_x: x,
                        pen_y: 0,
                        span_index: m.span_index,
                    },
                );
            }
            x += m.advance as i64;
            cur_width = x;
            proof {
                assert(opened.lines.drop_last() =~= line_views(done@));
                assert(before.step(chars@, i as int, max_width) == opened.put(m));
                assert((i + 1) * 0xffff_ffff <= width_limit()) by (nonlinear_arith)
                    requires
                        i + 1 <= MAX_GLYPHS,
                ;
            }
        }
        i += 1;
    }
    let line = LayoutLine { glyphs: cur, width: cur_width };
    proof {
        lemma_line_views_push(done@, line);
    }
    done.push(line);
    done
}

/// The width of the widest line.
fn widest_of(lines: &Vec<LayoutLine>) -> (w: i64)
    requires
        lines_bounded(line_views(lines@)),
    ensures
        w == widest(line_views(lines@)),
        0 <= w <= width_limit(),
{
    let ghost all = line_views(lines@);
    let mut w: i64 = 0;
    let mut k: usize = 0;
    while k < lines.len()
        invariant
            k <= lines.len(),
            all == line_views(lines@),
            lines_bounded(all),
            w == widest(all.take(k as int)),
            0 <= w <= width_limit(),
        decreases lines.len() - k,
    {
        proof {
            assert(all.take(k + 1).drop_last() =~= all.take(k as int));
            assert(all.take(k + 1).last() == all[k as int]);
            assert(line_bounded(all[k as int]));
        }
        if lines[k].width > w {
            w = lines[k].width;
        }
        k += 1;
    }
    assert(all.take(k as int) =~= all);
    w
}

/// Half of a length, rounded towards zero.
fn half_of(d: i64) -> (h: i64)
    requires
        d > i64::MIN,
    ensures
        h == half(d as int),
{
    if d >= 0 {
        d / 2
    } else {
        -((-d) / 2)
    }
}

/// Aligns the lines and sets each on its baseline.
fn arrange(lines: &Vec<LayoutLine>, metrics: LineMetrics, options: &LayoutOptions) -> (out: Vec<
    LayoutLine,
>)
    requires
        lines.len() <= MAX_GLYPHS + 1,
        lines_bounded(line_views(lines@)),
    ensures
        line_views(out@) == arranged(line_views(lines@), metrics, *options),
{
    let ghost all = line_views(lines@);
    let reference: i64 = match options.max_width {
        Some(m) => m as i64,
        None => widest_of(lines),
    };
    let height: i64 = if options.line_spacing < 0 {
        metrics.ascent as i64 + metrics.descent as i64
    } else {
        options.line_spacing as i64
    };
    assert(width_limit() == 0x1000_0000 * 0xffff_ffff);
    let mut out: Vec<LayoutLine> = Vec::new();
    let mut k: usize = 0;
    while k < lines.len()
        invariant
            k <= lines.len() <= MAX_GLYPHS + 1,
            all == line_views(lines@),
            lines_bounded(all),
            reference == reference_width(all, options.max_width),
            0 <= reference <= width_limit(),
            height == line_height(metrics, options.line_spacing),
            0 <= height <= 0x2_0000_0000,
            out.len() == k,
            forall|j: int|
                0 <= j < k ==> (#[trigger] out@[j])@ == arranged_line(all, metrics, *options, j),
        decreases lines.len() - k,
    {
        let line = &lines[k];
        assert(line_bounded(all[k as int]));
        assert(all[k as int] == line@);
        let dx: i64 = match options.align {
            TextAlign::Left => 0,
            TextAlign::Center => half_of(reference - line.width),
            TextAlign::Right => reference - line.width,
        };
        assert(-width_limit() <= dx <= width_limit());
        assert(0 <= k * height <= 0x1000_0001 * 0x2_0000_0000) by (nonlinear_arith)
            requires
                0 <= k <= 0x1000_0001,
                0 <= height <= 0x2_0000_0000,
        ;
        let y: i64 = metrics.ascent as i64 + (k as i64) * height;
        let mut glyphs: Vec<PositionedGlyph> = Vec::new();
        let mut j: usize = 0;
        while j < line.glyphs.len()
            invariant
                j <= line.glyphs.len(),
                line_bounded(line@),
                -width_limit() <= dx <= width_limit(),
                width_limit() == 0x1000_0000 * 0xffff_ffff,
                glyphs.len() == j,
                forall|n: int|
                    0 <= n < j ==> #[trigger] glyphs@[n] == place_glyph(
                        line@.glyphs[n],
                        dx as int,
                        y as int,
                    ),
            decreases line.glyphs.len() - j,
        {
            let g = line.glyphs[j];
            assert(g == line@.glyphs[j as int]);
            glyphs.push(
                PositionedGlyph {
                    character: g.character,
                    pen_x: g.pen_x + dx,
                    pen_y: y,
                    span_index: g.span_index,
                },
            );
            j += 1;
        }
        let placed = LayoutLine { glyphs, width: line.width };
        assert(placed@.glyphs =~= place_line(line@, dx as int, y as int).glyphs);
        out.push(placed);
        k += 1;
    }
    assert(line_views(out@) =~= arranged(all, metrics, *options));
    out
}

/// Lays measured characters out.
pub struct LayoutEngine {}

impl LayoutEngine {
    /// Breaks the characters into lines and gives every visible character
    /// its pen position.
    ///
    /// The text is cut into words at white space. Without a limit all
    /// words stand on one line. With a limit, a word follows the white
    /// space before it on the same line as long as the line stays within the
    /// limit, and else starts a new line; a word wider than the limit stands
    /// alone on its line and overflows. White space before the first word
    /// and at the end of a line takes no room. The first baseline lies one
    /// ascent below the top, and each line is moved to the right as the
    /// alignment asks.
    pub fn layout(chars: &Vec<MeasuredChar>, metrics: LineMetrics, options: &LayoutOptions) -> (r:
        TextLayout)
        requires
            chars.len() <= MAX_GLYPHS,
        ensures
            r@ == spec_layout(chars@, metrics, *options),
    {
        let lines = break_lines(chars, options.max_width);
        TextLayout { lines: arrange(&lines, metrics, options) }
    }

    /// Lays a document out, given for each of its characters the advance
    /// that the font engine measured for its glyph, in the order of
    /// `glyph_requests`. `None` where the advances are not one for each
    /// character, or where the document has more than `MAX_GLYPHS`
    /// characters.
    pub fn layout_text(
        text: &McText,
        advances: &Vec<u32>,
        metrics: LineMetrics,
        options: &LayoutOptions,
    ) -> (r: Option<TextLayout>)
        ensures
            r is Some <==> advances.len() == requests_of(text@, text@.len()).len()
                && advances.len() <= MAX_GLYPHS,
            r is Some ==> r.unwrap()@ == spec_layout(
                spec_measure(requests_of(text@, text@.len()), advances@, options.size),
                metrics,
                *options,
            ),
            r is Some ==> spans_below(r.unwrap()@, text@.len() as int),
    {
        let requests = glyph_requests(text);
        if requests.len() != advances.len() || advances.len() > MAX_GLYPHS {
            return None;
        }
        let spans = text.len();
        proof {
            assert(text@.len() == spans);
            lemma_layout_names_spans(text@, advances@, metrics, *options);
        }
        let chars = measure(&requests, advances, options.size);
        Some(Self::layout(&chars, metrics, options))
    }
}

/// The glyphs of all lines in a row.
pub open spec fn flat(lines: Seq<LineView>) -> Seq<PositionedGlyph>
    decreases lines.len(),
{
    if lines.len() == 0 {
        Seq::empty()
    } else {
        flat(lines.drop_last()) + lines.last().glyphs
    }
}

impl TextLayout {
    /// The number of lines.
    pub fn line_count(&self) -> (n: usize)
        ensures
            n == self@.len(),
    {
        self.lines.len()
    }

    /// The width of the widest line.
    pub fn width(&self) -> (w: i64)
        ensures
            self@.len() > 0 ==> exists|k: int| 0 <= k < self@.len() && self@[k].width == w,
            forall|k: int| 0 <= k < self@.len() ==> (#[trigger] self@[k]).width <= w,
            self@.len() == 0 ==> w == i64::MIN,
    {
        let mut w: i64 = i64::MIN;
        let mut k: usize = 0;
        while k < self.lines.len()
            invariant
                k <= self.lines.len(),
                k > 0 ==> exists|j: int| 0 <= j < k && self@[j].width == w,
                forall|j: int| 0 <= j < k ==> (#[trigger] self@[j]).width <= w,
                k == 0 ==> w == i64::MIN,
            decreases self.lines.len() - k,
        {
            if k == 0 || self.lines[k].width > w {
                w = self.lines[k].width;
                assert(self@[k as int].width == w);
            }
            k += 1;
        }
        w
    }

    /// The glyphs of all lines in a row, in the order in which they are
    /// painted.
    pub fn glyphs(&self) -> (g: Vec<PositionedGlyph>)
        ensures
            g@ == flat(self@),
    {
        let mut g: Vec<PositionedGlyph> = Vec::new();
        let mut k: usize = 0;
        assert(self@.take(0) =~= Seq::<LineView>::empty());
        while k < self.lines.len()
            invariant
                k <= self.lines.len(),
                g@ == flat(self@.take(k as int)),
            decreases self.lines.len() - k,
        {
            let line = &self.lines[k];
            let ghost before = g@;
            let mut j: usize = 0;
            while j < line.glyphs.len()
                invariant
                    j <= line.glyphs.len(),
                    g@ == before + line.glyphs@.take(j as int),
                decreases line.glyphs.len() - j,
            {
                g.push(line.glyphs[j]);
                j += 1;
                assert(g@ =~= before + line.glyphs@.take(j as int));
            }
            proof {
                assert(line.glyphs@.take(j as int) =~= line.glyphs@);
                assert(self@.take(k + 1).drop_last() =~= self@.take(k as int));
                assert(self@.take(k + 1).last() == line@);
            }
            k += 1;
        }
        assert(self@.take(k as int) =~= self@);
        g
    }
}

/// A character to be measured and rasterized: which face it is set in, and
/// the span it comes from.
#[derive(Debug, Clone, Copy, PartialEq, Eq, Structural)]
pub struct GlyphRequest {
    pub character: char,
    pub variant: FontVariant,
    pub span_index: usize,
}

impl GlyphRequest {
    pub open spec fn of(character: char, variant: FontVariant, span_index: usize) -> GlyphRequest {
        GlyphRequest { character, variant, span_index }
    }
}

/// The requests for the characters of one span: each in the variant that
/// the span's style selects.
pub open spec fn span_requests(span: SpanView, index: usize) -> Seq<GlyphRequest> {
    Seq::new(
        span.text.len(),
        |j: int| GlyphRequest::of(span.text[j], span.style.spec_variant(), index),
    )
}

/// The requests for the characters of the first `n` spans, in order.
pub open spec fn requests_of(spans: Seq<SpanView>, n: nat) -> Seq<GlyphRequest>
    decreases n,
{
    if n == 0 {
        Seq::empty()
    } else {
        requests_of(spans, (n - 1) as nat) + span_requests(spans[n - 1], (n - 1) as usize)
    }
}

/// The characters of a document with the face each is set in: what has to
/// be measured before the document can be laid out.
pub fn glyph_requests(text: &McText) -> (r: Vec<GlyphRequest>)
    ensures
        r@ == requests_of(text@, text@.len()),
{
    let spans = text.spans();
    let mut r: Vec<GlyphRequest> = Vec::new();
    let mut i: usize = 0;
    while i < spans.len()
        invariant
            i <= spans.len(),
            span_views(spans@) == text@,
            r@ == requests_of(text@, i as nat),
        decreases spans.len() - i,
    {
        let chars = chars_of(spans[i].text.as_str());
        let variant = spans[i].style.variant();
        let ghost before = r@;
        let ghost all = span_requests(text@[i as int], i);
        let mut j: usize = 0;
        while j < chars.len()
            invariant
                j <= chars.len(),
                chars@ == text@[i as int].text,
                variant == text@[i as int].style.spec_variant(),
                all == span_requests(text@[i as int], i),
                r@ == before + all.take(j as int),
            decreases chars.len() - j,
        {
            let q = GlyphRequest { character: chars[j], variant, span_index: i };
            assert(all[j as int] == q);
            assert(all.take(j + 1) =~= all.take(j as int).push(q));
            r.push(q);
            j += 1;
            assert(r@ =~= before + all.take(j as int));
        }
        assert(all.take(j as int) =~= all);
        i += 1;
    }
    r
}

/// A request with the advance it was measured at.
pub open spec fn measured(request: GlyphRequest, glyph_advance: u32, size: u32) -> MeasuredChar {
    MeasuredChar {
        character: request.character,
        advance: effective_advance(request.character, size, glyph_advance),
        span_index: request.span_index,
    }
}

/// The requests with their advances, given for each the advance that the
/// font engine measured for its glyph.
pub open spec fn spec_measure(requests: Seq<GlyphRequest>, advances: Seq<u32>, size: u32) -> Seq<
    MeasuredChar,
> {
    Seq::new(requests.len(), |i: int| measured(requests[i], advances[i], size))
}

pub fn measure(requests: &Vec<GlyphRequest>, advances: &Vec<u32>, size: u32) -> (r: Vec<
    MeasuredChar,
>)
    requires
        requests.len() == advances.len(),
    ensures
        r@ == spec_measure(requests@, advances@, size),
{
    let mut r: Vec<MeasuredChar> = Vec::new();
    let mut i: usize = 0;
    while i < requests.len()
        invariant
            i <= requests.len(),
            requests.len() == advances.len(),
            r@ == spec_measure(requests@, advances@, size).take(i as int),
        decreases requests.len() - i,
    {
        let q = requests[i];
        r.push(
            MeasuredChar {
                character: q.character,
                advance: advance_of(q.character, size, advances[i]),
                span_index: q.span_index,
            },
        );
        i += 1;
        assert(r@ =~= spec_measure(requests@, advances@, size).take(i as int));
    }
    assert(spec_measure(requests@, advances@, size).take(i as int) =~= spec_measure(
        requests@,
        advances@,
        size,
    ));
    r
}

/// The face in which a laid-out glyph is set: the variant that the style
/// of its span selects, and the regular face where the document has no span
/// at the glyph's index.
pub open spec fn variant_of(spans: Seq<SpanView>, glyph: PositionedGlyph) -> FontVariant {
    if glyph.span_index < spans.len() {
        spans[glyph.span_index as int].style.spec_variant()
    } else {
        FontVariant::Regular
    }
}

/// The face of each laid-out glyph, in the order of the glyphs: what has to
/// be rasterized before the layout can be painted.
pub fn glyph_variants(text: &McText, glyphs: &Vec<PositionedGlyph>) -> (faces: Vec<FontVariant>)
    ensures
        faces@.len() == glyphs@.len(),
        forall|i: int|
            0 <= i < glyphs@.len() ==> #[trigger] faces@[i] == variant_of(text@, glyphs@[i]),
        forall|i: int|
            0 <= i < glyphs@.len() && glyphs@[i].span_index < text@.len() ==> #[trigger] faces@[i]
                == text@[glyphs@[i].span_index as int].style.spec_variant(),
{
    let spans = text.spans();
    let mut faces: Vec<FontVariant> = Vec::new();
    let mut i: usize = 0;
    while i < glyphs.len()
        invariant
            i <= glyphs.len(),
            span_views(spans@) == text@,
            faces@.len() == i,
            forall|j: int| 0 <= j < i ==> #[trigger] faces@[j] == variant_of(text@, glyphs@[j]),
        decreases glyphs.len() - i,
    {
        let g = glyphs[i];
        let face = if g.span_index < spans.len() {
            spans[g.span_index].style.variant()
        } else {
            FontVariant::Regular
        };
        faces.push(face);
        i += 1;
    }
    faces
}

/// Every glyph of the lines comes from a span below `limit`.
pub open spec fn spans_below(lines: Seq<LineView>, limit: int) -> bool {
    forall|k: int, j: int|
        0 <= k < lines.len() && 0 <= j < lines[k].glyphs.len() ==> (#[trigger] lines[k].glyphs[j]).span_index
            < limit
}

/// Every measured character comes from a span below `limit`.
pub open spec fn chars_below(chars: Seq<MeasuredChar>, limit: int) -> bool {
    forall|i: int| 0 <= i < chars.len() ==> (#[trigger] chars[i]).span_index < limit
}

/// A character put on the last line leaves every glyph with a span below
/// the limit, if its own span is.
proof fn lemma_put_keeps_spans_below(f: Flow, m: MeasuredChar, limit: int)
    requires
        f.lines.len() >= 1,
        spans_below(f.lines, limit),
        m.span_index < limit,
    ensures
        f.put(m).lines.len() == f.lines.len(),
        spans_below(f.put(m).lines, limit),
{
    let out = f.put(m).lines;
    let last = f.lines.last();
    assert forall|k: int, j: int| 0 <= k < out.len() && 0 <= j < out[k].glyphs.len() implies (
    #[trigger] out[k].glyphs[j]).span_index < limit by {
        if k < out.len() - 1 {
            assert(out[k] == f.lines[k]);
            assert(f.lines[k].glyphs[j].span_index < limit);
        } else if j < last.glyphs.len() {
            assert(out[k].glyphs[j] == f.lines[f.lines.len() - 1].glyphs[j]);
        } else {
            assert(out[k].glyphs[j] == glyph_at(m, f.x));
        }
    }
}

/// A word that begins leaves every glyph with a span below the limit.
proof fn lemma_open_word_keeps_spans_below(f: Flow, w: int, max_width: Option<u32>, limit: int)
    requires
        f.lines.len() >= 1,
        spans_below(f.lines, limit),
    ensures
        f.open_word(w, max_width).lines.len() >= 1,
        spans_below(f.open_word(w, max_width).lines, limit),
{
    let out = f.open_word(w, max_width).lines;
    assert forall|k: int, j: int| 0 <= k < out.len() && 0 <= j < out[k].glyphs.len() implies (
    #[trigger] out[k].glyphs[j]).span_index < limit by {
        if k < f.lines.len() {
            assert(out[k] == f.lines[k]);
            assert(f.lines[k].glyphs[j].span_index < limit);
        }
    }
}

/// Breaking lines gives no glyph a span that no character had.
proof fn lemma_flow_keeps_spans_below(
    chars: Seq<MeasuredChar>,
    max_width: Option<u32>,
    n: nat,
    limit: int,
)
    requires
        n <= chars.len(),
        chars_below(chars, limit),
    ensures
        flow(chars, max_width, n).lines.len() >= 1,
        spans_below(flow(chars, max_width, n).lines, limit),
    decreases n,
{
    if n > 0 {
        let before = flow(chars, max_width, (n - 1) as nat);
        lemma_flow_keeps_spans_below(chars, max_width, (n - 1) as nat, limit);
        let m = chars[n - 1];
        if !is_space(m.character) {
            if before.in_word {
                lemma_put_keeps_spans_below(before, m, limit);
            } else {
                let opened = before.open_word(word_width(chars, n - 1), max_width);
                lemma_open_word_keeps_spans_below(
                    before,
                    word_width(chars, n - 1),
                    max_width,
                    limit,
                );
                lemma_put_keeps_spans_below(opened, m, limit);
            }
        }
    }
}

/// Aligning lines and setting them on their baselines changes no glyph's
/// span.
proof fn lemma_arranged_keeps_spans_below(
    lines: Seq<LineView>,
    metrics: LineMetrics,
    options: LayoutOptions,
    limit: int,
)
    requires
        spans_below(lines, limit),
    ensures
        spans_below(arranged(lines, metrics, options), limit),
{
    let out = arranged(lines, metrics, options);
    assert forall|k: int, j: int| 0 <= k < out.len() && 0 <= j < out[k].glyphs.len() implies (
    #[trigger] out[k].glyphs[j]).span_index < limit by {
        assert(out[k] == arranged_line(lines, metrics, options, k));
        assert(out[k].glyphs[j].span_index == lines[k].glyphs[j].span_index);
    }
}

/// The requests for the first `n` spans name spans below `n` only.
proof fn lemma_requests_name_their_spans(spans: Seq<SpanView>, n: nat)
    requires
        n <= spans.len(),
        n <= usize::MAX,
    ensures
        forall|i: int|
            0 <= i < requests_of(spans, n).len() ==> (#[trigger] requests_of(spans, n)[i]).span_index
                < n,
    decreases n,
{
    if n > 0 {
        lemma_requests_name_their_spans(spans, (n - 1) as nat);
        let before = requests_of(spans, (n - 1) as nat);
        let own = span_requests(spans[n - 1], (n - 1) as usize);
        assert forall|i: int| 0 <= i < requests_of(spans, n).len() implies (
        #[trigger] requests_of(spans, n)[i]).span_index < n by {
            if i < before.len() {
                assert(requests_of(spans, n)[i] == before[i]);
            } else {
                assert(requests_of(spans, n)[i] == own[i - before.len()]);
            }
        }
    }
}

/// Every glyph of a document's layout comes from a span of the document:
/// its span index lies below the number of spans.
pub proof fn lemma_layout_names_spans(
    spans: Seq<SpanView>,
    advances: Seq<u32>,
    metrics: LineMetrics,
    options: LayoutOptions,
)
    requires
        spans.len() <= usize::MAX,
        advances.len() == requests_of(spans, spans.len()).len(),
    ensures
        spans_below(
            spec_layout(
                spec_measure(requests_of(spans, spans.len()), advances, options.size),
                metrics,
                options,
            ),
            spans.len() as int,
        ),
{
    let requests = requests_of(spans, spans.len());
    let chars = spec_measure(requests, advances, options.size);
    lemma_requests_name_their_spans(spans, spans.len());
    assert forall|i: int| 0 <= i < chars.len() implies (#[trigger] chars[i]).span_index
        < spans.len() by {
        assert(chars[i].span_index == requests[i].span_index);
    }
    lemma_flow_keeps_spans_below(chars, options.max_width, chars.len(), spans.len() as int);
    lemma_arranged_keeps_spans_below(
        flow(chars, options.max_width, chars.len()).lines,
        metrics,
        options,
        spans.len() as int,
    );
}

/// The glyphs of all lines in a row come from the spans that the glyphs of
/// the lines come from.
pub proof fn lemma_flat_names_spans(lines: Seq<LineView>, limit: int)
    requires
        spans_below(lines, limit),
    ensures
        forall|i: int| 0 <= i < flat(lines).len() ==> (#[trigger] flat(lines)[i]).span_index < limit,
    decreases lines.len(),
{
    if lines.len() > 0 {
        let front = lines.drop_last();
        assert(spans_below(front, limit)) by {
            assert forall|k: int, j: int|
                0 <= k < front.len() && 0 <= j < front[k].glyphs.len() implies (
            #[trigger] front[k].glyphs[j]).span_index < limit by {
                assert(front[k] == lines[k]);
                assert(lines[k].glyphs[j].span_index < limit);
            }
        }
        lemma_flat_names_spans(front, limit);
        assert forall|i: int| 0 <= i < flat(lines).len() implies (#[trigger] flat(
            lines,
        )[i]).span_index < limit by {
            if i < flat(front).len() {
                assert(flat(lines)[i] == flat(front)[i]);
            } else {
                let j = i - flat(front).len();
                assert(flat(lines)[i] == lines[lines.len() - 1].glyphs[j]);
            }
        }
    }
}

} // verus!

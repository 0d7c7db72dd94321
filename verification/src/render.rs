//! The software renderer: glyph coverage composited into an RGBA buffer.

use vstd::prelude::*;
use crate::chars::{chars_of, is_control, is_control_char};
use crate::color::{shadow_color, spec_shadow_color, NamedColor, TextColor, SHADOW_OFFSET};
use crate::layout::{PositionedGlyph, SUBPIXELS};
use crate::system::{advance_of, text_width};
use crate::text::{span_views, McText, SpanView};

verus! {

/// The bitmap of one glyph as a font engine hands it over: where its box
/// lies relative to the pen, and one byte of coverage for each pixel of the
/// box, row by row from the top.
#[derive(Debug, PartialEq, Eq)]
pub struct RasterizedGlyph {
    xmin: i32,
    ymin: i32,
    width: usize,
    height: usize,
    coverage: Vec<u8>,
}

/// What a rasterized glyph holds, as a mathematical value.
pub struct GlyphView {
    pub xmin: int,
    pub ymin: int,
    pub width: nat,
    pub height: nat,
    pub coverage: Seq<u8>,
}

impl GlyphView {
    /// The coverage that the glyph has at the pixel (`x`, `y`) when the
    /// top left corner of its box lies at (`left`, `top`): zero outside the
    /// box.
    pub open spec fn coverage_at(self, left: int, top: int, x: int, y: int) -> u8 {
        let col = x - left;
        let row = y - top;
        if 0 <= col < self.width && 0 <= row < self.height && 0 <= row * self.width + col
            < self.coverage.len() {
            self.coverage[row * self.width + col]
        } else {
            0
        }
    }

    /// The column of the box's left edge when the pen stands at `pen_x`.
    pub open spec fn left(self, pen_x: int) -> int {
        pen_x + self.xmin
    }

    /// The row of the box's top edge when the baseline lies at `pen_y`.
    pub open spec fn top(self, pen_y: int) -> int {
        pen_y - self.height - self.ymin
    }

    /// The column of the box's left edge when the pen stands at `pen`, a
    /// position in subpixels: the glyph's offset is added to the pen first,
    /// and the sum is cut to a whole pixel last.
    pub open spec fn left_from(self, pen: int) -> int {
        to_pixel(pen + SUBPIXELS * self.xmin)
    }

    /// The row of the box's top edge when the baseline lies at `baseline`,
    /// a position in subpixels: the glyph's height and offset are taken from
    /// the baseline first, and the difference is cut to a whole pixel last.
    pub open spec fn top_from(self, baseline: int) -> int {
        to_pixel(baseline - SUBPIXELS * self.height - SUBPIXELS * self.ymin)
    }
}

impl View for RasterizedGlyph {
    type V = GlyphView;

    closed spec fn view(&self) -> GlyphView {
        GlyphView {
            xmin: self.xmin as int,
            ymin: self.ymin as int,
            width: self.width as nat,
            height: self.height as nat,
            coverage: self.coverage@,
        }
    }
}

impl Clone for RasterizedGlyph {
    fn clone(&self) -> (g: RasterizedGlyph)
        ensures
            g@ == self@,
    {
        proof {
            use_type_invariant(self);
        }
        let coverage = self.coverage.clone();
        assert(coverage@ =~= self.coverage@);
        RasterizedGlyph {
            xmin: self.xmin,
            ymin: self.ymin,
            width: self.width,
            height: self.height,
            coverage,
        }
    }
}

impl RasterizedGlyph {
    /// The coverage has one byte for each pixel of the box.
    #[verifier::type_invariant]
    spec fn well_formed(&self) -> bool {
        self.coverage@.len() == self.width * self.height
    }

    /// A glyph from its metrics and coverage; `None` unless the coverage
    /// has `width * height` bytes.
    pub fn new(xmin: i32, ymin: i32, width: usize, height: usize, coverage: Vec<u8>) -> (g: Option<
        RasterizedGlyph,
    >)
        ensures
            g is Some <==> coverage@.len() == width * height,
            g is Some ==> g.unwrap()@ == (GlyphView {
                xmin: xmin as int,
                ymin: ymin as int,
                width: width as nat,
                height: height as nat,
                coverage: coverage@,
            }),
    {
        let len = coverage.len();
        match width.checked_mul(height) {
            Some(n) => {
                if n == len {
                    Some(RasterizedGlyph { xmin, ymin, width, height, coverage })
                } else {
                    None
                }
            },
            None => None,
        }
    }

    pub fn width(&self) -> (w: usize)
        ensures
            w == self@.width,
    {
        self.width
    }

    pub fn height(&self) -> (h: usize)
        ensures
            h == self@.height,
    {
        self.height
    }
}

/// One channel after alpha-over blending: `src * a + dst * (1 - a)` where
/// `a` is the coverage over 255, rounded down.
pub open spec fn blend_channel(src: u8, dst: u8, coverage: u8) -> u8 {
    ((src as int * coverage as int + dst as int * (255 - coverage as int)) / 255) as u8
}

pub fn blend(src: u8, dst: u8, coverage: u8) -> (r: u8)
    ensures
        r == blend_channel(src, dst, coverage),
        coverage == 255 ==> r == src,
        coverage == 0 ==> r == dst,
{
    let a: u32 = coverage as u32;
    let s: u32 = src as u32;
    let d: u32 = dst as u32;
    assert(s * a <= 255 * a) by (nonlinear_arith)
        requires
            s <= 255,
            a >= 0,
    ;
    assert(d * (255 - a) <= 255 * (255 - a)) by (nonlinear_arith)
        requires
            d <= 255,
            255 - a >= 0,
    ;
    let total: u32 = s * a + d * (255 - a);
    assert(total <= 255 * 255);
    assert(coverage == 255 ==> total == s * 255);
    assert(coverage == 0 ==> total == d * 255);
    (total / 255) as u8
}

/// The byte of channel `c` (0 red, 1 green, 2 blue, 3 alpha) after a pixel
/// that held `dst` was covered by `coverage` in the color `src`: untouched
/// where the coverage is zero; else the color channels are blended and the
/// alpha becomes fully opaque.
pub open spec fn composited(dst: u8, src: (u8, u8, u8), coverage: u8, c: int) -> u8 {
    if coverage == 0 {
        dst
    } else if c == 0 {
        blend_channel(src.0, dst, coverage)
    } else if c == 1 {
        blend_channel(src.1, dst, coverage)
    } else if c == 2 {
        blend_channel(src.2, dst, coverage)
    } else {
        255
    }
}

/// The byte of channel `c` after a pixel that held `dst` was stamped with
/// `coverage`: untouched where the coverage is zero; else white, with the
/// coverage as its alpha.
pub open spec fn stamped(dst: u8, coverage: u8, c: int) -> u8 {
    if coverage == 0 {
        dst
    } else if c == 3 {
        coverage
    } else {
        255
    }
}

/// A pixel outside a glyph's box has no coverage from it, and neither
/// compositing nor stamping the glyph changes any of its bytes.
pub proof fn lemma_outside_box_is_untouched(
    glyph: GlyphView,
    left: int,
    top: int,
    x: int,
    y: int,
    dst: u8,
    src: (u8, u8, u8),
    c: int,
)
    requires
        !(left <= x < left + glyph.width && top <= y < top + glyph.height),
    ensures
        glyph.coverage_at(left, top, x, y) == 0,
        composited(dst, src, glyph.coverage_at(left, top, x, y), c) == dst,
        stamped(dst, glyph.coverage_at(left, top, x, y), c) == dst,
{
}

/// A transparent pixel that is stamped has the coverage as its alpha; one
/// that is composited with coverage above zero is fully opaque, and with
/// full coverage it has the color itself.
pub proof fn lemma_alpha_after_touch(src: (u8, u8, u8), coverage: u8)
    ensures
        stamped(0, coverage, 3) == coverage,
        composited(0, src, coverage, 3) == if coverage == 0 {
            0u8
        } else {
            255u8
        },
        composited(0, src, 255, 0) == src.0,
        composited(0, src, 255, 1) == src.1,
        composited(0, src, 255, 2) == src.2,
{
}

/// A pixel buffer: rows from the top, four bytes (red, green, blue, alpha)
/// for each pixel.
#[derive(Debug)]
pub struct SoftwareRenderer {
    buffer: Vec<u8>,
    width: usize,
    height: usize,
}

/// The place of a channel in a buffer of the given width.
pub open spec fn offset_of(width: int, x: int, y: int, c: int) -> int {
    (y * width + x) * 4 + c
}

/// Different channels of a buffer have different places, and every place
/// lies inside the buffer.
pub proof fn lemma_offsets(width: int, height: int, x: int, y: int, c: int)
    requires
        0 <= x < width,
        0 <= y < height,
        0 <= c < 4,
    ensures
        0 <= offset_of(width, x, y, c) < width * height * 4,
        offset_of(width, x, y, c) / 4 == y * width + x,
        offset_of(width, x, y, c) % 4 == c,
        (y * width + x) / width == y,
        (y * width + x) % width == x,
{
    assert(0 <= y * width + x < width * height) by (nonlinear_arith)
        requires
            0 <= x < width,
            0 <= y < height,
    ;
    vstd::arithmetic::div_mod::lemma_fundamental_div_mod_converse(y * width + x, width, y, x);
}

impl SoftwareRenderer {
    /// The buffer has four bytes for each pixel.
    #[verifier::type_invariant]
    spec fn well_formed(&self) -> bool {
        self.buffer@.len() == self.width * self.height * 4
    }

    pub closed spec fn spec_width(&self) -> nat {
        self.width as nat
    }

    pub closed spec fn spec_height(&self) -> nat {
        self.height as nat
    }

    /// The bytes of the buffer.
    pub closed spec fn bytes(&self) -> Seq<u8> {
        self.buffer@
    }

    /// The byte of channel `c` of the pixel (`x`, `y`).
    pub open spec fn at(&self, x: int, y: int, c: int) -> u8 {
        self.bytes()[offset_of(self.spec_width() as int, x, y, c)]
    }

    /// Whether the pixel lies inside the buffer.
    pub open spec fn holds(&self, x: int, y: int) -> bool {
        0 <= x < self.spec_width() && 0 <= y < self.spec_height()
    }

    /// A fully transparent buffer of the given size; `None` where the
    /// number of bytes does not fit the machine.
    pub fn new(width: usize, height: usize) -> (r: Option<SoftwareRenderer>)
        ensures
            r is Some <==> width * height * 4 <= usize::MAX,
            r is Some ==> {
                let s = r.unwrap();
                &&& s.spec_width() == width
                &&& s.spec_height() == height
                &&& s.bytes() == Seq::new((width * height * 4) as nat, |i: int| 0u8)
            },
    {
        let pixels = match width.checked_mul(height) {
            Some(n) => n,
            None => {
                assert(width * height * 4 > usize::MAX) by (nonlinear_arith)
                    requires
                        width * height > usize::MAX,
                ;
                return None;
            },
        };
        let n = match pixels.checked_mul(4) {
            Some(n) => n,
            None => {
                return None;
            },
        };
        let buffer = vec![0u8; n];
        assert(buffer@ =~= Seq::new(n as nat, |i: int| 0u8));
        Some(SoftwareRenderer { buffer, width, height })
    }

    /// A renderer over a buffer that the caller filled; `None` unless the
    /// buffer has four bytes for each pixel.
    pub fn from_buffer(buffer: Vec<u8>, width: usize, height: usize) -> (r: Option<
        SoftwareRenderer,
    >)
        ensures
            r is Some <==> buffer@.len() == width * height * 4,
            r is Some ==> {
                let s = r.unwrap();
                &&& s.spec_width() == width
                &&& s.spec_height() == height
                &&& s.bytes() == buffer@
            },
    {
        let len = buffer.len();
        let pixels = match width.checked_mul(height) {
            Some(n) => n,
            None => {
                assert(width * height * 4 > usize::MAX) by (nonlinear_arith)
                    requires
                        width * height > usize::MAX,
                ;
                return None;
            },
        };
        match pixels.checked_mul(4) {
            Some(n) => {
                if n == len {
                    Some(SoftwareRenderer { buffer, width, height })
                } else {
                    None
                }
            },
            None => None,
        }
    }

    pub fn width(&self) -> (w: usize)
        ensures
            w == self.spec_width(),
    {
        self.width
    }

    pub fn height(&self) -> (h: usize)
        ensures
            h == self.spec_height(),
    {
        self.height
    }

    /// The bytes of the buffer.
    pub fn buffer(&self) -> (b: &Vec<u8>)
        ensures
            b@ == self.bytes(),
            b@.len() == self.spec_width() * self.spec_height() * 4,
    {
        proof {
            use_type_invariant(self);
        }
        &self.buffer
    }

    /// Gives the buffer up.
    pub fn into_buffer(self) -> (b: Vec<u8>)
        ensures
            b@ == self.bytes(),
            b@.len() == self.spec_width() * self.spec_height() * 4,
    {
        proof {
            use_type_invariant(&self);
        }
        self.buffer
    }
}

/// The byte of channel `c` after a pixel that held `dst` was touched:
/// stamped, or composited in the color `src`.
pub open spec fn touched(dst: u8, src: (u8, u8, u8), coverage: u8, c: int, stamp: bool) -> u8 {
    if stamp {
        stamped(dst, coverage, c)
    } else {
        composited(dst, src, coverage, c)
    }
}

impl SoftwareRenderer {
    /// Touches one pixel inside the buffer; every other pixel stays.
    fn touch(&mut self, x: usize, y: usize, color: (u8, u8, u8), coverage: u8, stamp: bool)
        requires
            old(self).holds(x as int, y as int),
        ensures
            final(self).spec_width() == old(self).spec_width(),
            final(self).spec_height() == old(self).spec_height(),
            forall|x2: int, y2: int, c: int|
                final(self).holds(x2, y2) && 0 <= c < 4 ==> #[trigger] final(self).at(x2, y2, c)
                    == if x2 == x && y2 == y {
                    touched(old(self).at(x2, y2, c), color, coverage, c, stamp)
                } else {
                    old(self).at(x2, y2, c)
                },
    {
        if coverage == 0 {
            return ;
        }
        proof {
            use_type_invariant(&*self);
        }
        let ghost w = self.width as int;
        let ghost h = self.height as int;
        proof {
            lemma_offsets(w, h, x as int, y as int, 0);
            lemma_offsets(w, h, x as int, y as int, 3);
        }
        let len = self.buffer.len();
        assert(0 <= y * self.width <= y * self.width + x < self.width * self.height
            && self.width * self.height * 4 == len) by (nonlinear_arith)
            requires
                0 <= x < self.width,
                0 <= y < self.height,
                self.width * self.height * 4 == len,
        ;
        let base: usize = (y * self.width + x) * 4;
        if stamp {
            self.buffer[base] = 255;
            self.buffer[base + 1] = 255;
            self.buffer[base + 2] = 255;
            self.buffer[base + 3] = coverage;
        } else {
            let r = blend(color.0, self.buffer[base], coverage);
            let g = blend(color.1, self.buffer[base + 1], coverage);
            let b = blend(color.2, self.buffer[base + 2], coverage);
            self.buffer[base] = r;
            self.buffer[base + 1] = g;
            self.buffer[base + 2] = b;
            self.buffer[base + 3] = 255;
        }
        proof {
            assert forall|x2: int, y2: int, c: int|
                self.holds(x2, y2) && 0 <= c < 4 implies #[trigger] self.at(x2, y2, c) == if x2
                == x && y2 == y {
                touched(old(self).at(x2, y2, c), color, coverage, c, stamp)
            } else {
                old(self).at(x2, y2, c)
            } by {
                lemma_offsets(w, h, x2, y2, c);
                lemma_offsets(w, h, x as int, y as int, c);
            }
        }
    }

    /// Touches every pixel of the buffer that the glyph's box covers, with
    /// the glyph's coverage there. Pixels of the box outside the buffer are
    /// passed over.
    fn apply_glyph(
        &mut self,
        glyph: &RasterizedGlyph,
        left: i128,
        top: i128,
        color: (u8, u8, u8),
        stamp: bool,
    )
        requires
            -0x10_0000_0000_0000_0000_0000_0000 <= left <= 0x10_0000_0000_0000_0000_0000_0000,
            -0x10_0000_0000_0000_0000_0000_0000 <= top <= 0x10_0000_0000_0000_0000_0000_0000,
        ensures
            final(self).spec_width() == old(self).spec_width(),
            final(self).spec_height() == old(self).spec_height(),
            forall|x: int, y: int, c: int|
                final(self).holds(x, y) && 0 <= c < 4 ==> #[trigger] final(self).at(x, y, c)
                    == touched(
                    old(self).at(x, y, c),
                    color,
                    glyph@.coverage_at(left as int, top as int, x, y),
                    c,
                    stamp,
                ),
    {
        let ghost g = glyph@;
        let ghost l = left as int;
        let ghost t = top as int;
        proof {
            use_type_invariant(glyph);
        }
        let mut row: usize = 0;
        while row < glyph.height
            invariant
                row <= glyph.height,
                glyph.coverage@.len() == glyph.width * glyph.height,
                g == glyph@,
                l == left,
                t == top,
                -0x10_0000_0000_0000_0000_0000_0000 <= left <= 0x10_0000_0000_0000_0000_0000_0000,
                -0x10_0000_0000_0000_0000_0000_0000 <= top <= 0x10_0000_0000_0000_0000_0000_0000,
                self.spec_width() == old(self).spec_width(),
                self.spec_height() == old(self).spec_height(),
                forall|x: int, y: int, c: int|
                    self.holds(x, y) && 0 <= c < 4 ==> #[trigger] self.at(x, y, c) == if y - t
                        < row {
                        touched(old(self).at(x, y, c), color, g.coverage_at(l, t, x, y), c, stamp)
                    } else {
                        old(self).at(x, y, c)
                    },
            decreases glyph.height - row,
        {
            let py: i128 = top + row as i128;
            if 0 <= py && py < self.height as i128 {
                let mut col: usize = 0;
                while col < glyph.width
                    invariant
                        col <= glyph.width,
                        row < glyph.height,
                        glyph.coverage@.len() == glyph.width * glyph.height,
                        g == glyph@,
                        l == left,
                        t == top,
                        py == top + row,
                        0 <= py < self.height,
                        -0x10_0000_0000_0000_0000_0000_0000 <= left <= 0x10_0000_0000_0000_0000_0000_0000,
                        self.spec_width() == old(self).spec_width(),
                        self.spec_height() == old(self).spec_height(),
                        forall|x: int, y: int, c: int|
                            self.holds(x, y) && 0 <= c < 4 ==> #[trigger] self.at(x, y, c) == if y
                                - t < row || (y - t == row && x - l < col) {
                                touched(
                                    old(self).at(x, y, c),
                                    color,
                                    g.coverage_at(l, t, x, y),
                                    c,
                                    stamp,
                                )
                            } else {
                                old(self).at(x, y, c)
                            },
                    decreases glyph.width - col,
                {
                    let px: i128 = left + col as i128;
                    if 0 <= px && px < self.width as i128 {
                        let len = glyph.coverage.len();
                        assert(0 <= row * glyph.width <= row * glyph.width + col < glyph.width
                            * glyph.height) by (nonlinear_arith)
                            requires
                                0 <= row < glyph.height,
                                0 <= col < glyph.width,
                        ;
                        let cov = glyph.coverage[row * glyph.width + col];
                        assert(cov == g.coverage_at(l, t, px as int, py as int));
                        self.touch(px as usize, py as usize, color, cov, stamp);
                    }
                    col += 1;
                }
            }
            row += 1;
        }
    }

    /// Composites a glyph whose pen stands at the pixel (`pen_x`, `pen_y`),
    /// `pen_y` being the baseline: every pixel of the buffer under the
    /// glyph's box with coverage above zero is blended towards the color and
    /// made opaque. Every other pixel stays as it was; what falls outside the
    /// buffer is dropped.
    pub fn draw_glyph(&mut self, glyph: &RasterizedGlyph, pen_x: i64, pen_y: i64, color: TextColor)
        ensures
            final(self).bytes().len() == old(self).bytes().len(),
            final(self).spec_width() == old(self).spec_width(),
            final(self).spec_height() == old(self).spec_height(),
            forall|x: int, y: int, c: int|
                final(self).holds(x, y) && 0 <= c < 4 ==> #[trigger] final(self).at(x, y, c)
                    == composited(
                    old(self).at(x, y, c),
                    color.spec_rgb(),
                    glyph@.coverage_at(glyph@.left(pen_x as int), glyph@.top(pen_y as int), x, y),
                    c,
                ),
    {
        proof {
            use_type_invariant(&*self);
        }
        let left: i128 = pen_x as i128 + glyph.xmin as i128;
        let top: i128 = pen_y as i128 - glyph.height as i128 - glyph.ymin as i128;
        self.apply_glyph(glyph, left, top, color.rgb(), false);
        proof {
            use_type_invariant(&*self);
        }
    }

    /// Stamps a glyph with the top left corner of its box at the pixel
    /// (`left`, `top`).
    fn stamp_box(&mut self, glyph: &RasterizedGlyph, left: i128, top: i128)
        requires
            -0x10_0000_0000_0000_0000_0000_0000 <= left <= 0x10_0000_0000_0000_0000_0000_0000,
            -0x10_0000_0000_0000_0000_0000_0000 <= top <= 0x10_0000_0000_0000_0000_0000_0000,
        ensures
            final(self).bytes().len() == old(self).bytes().len(),
            final(self).spec_width() == old(self).spec_width(),
            final(self).spec_height() == old(self).spec_height(),
            forall|x: int, y: int, c: int|
                final(self).holds(x, y) && 0 <= c < 4 ==> #[trigger] final(self).at(x, y, c)
                    == stamped(
                    old(self).at(x, y, c),
                    glyph@.coverage_at(left as int, top as int, x, y),
                    c,
                ),
    {
        proof {
            use_type_invariant(&*self);
        }
        self.apply_glyph(glyph, left, top, (255, 255, 255), true);
        proof {
            use_type_invariant(&*self);
        }
    }

    /// Stamps a glyph whose pen stands at the pixel (`pen_x`, `pen_y`):
    /// every pixel of the buffer under the glyph's box with coverage above
    /// zero becomes white with the coverage as its alpha. Every other pixel
    /// stays as it was; what falls outside the buffer is dropped.
    pub fn stamp_glyph(&mut self, glyph: &RasterizedGlyph, pen_x: i64, pen_y: i64)
        ensures
            final(self).bytes().len() == old(self).bytes().len(),
            final(self).spec_width() == old(self).spec_width(),
            final(self).spec_height() == old(self).spec_height(),
            forall|x: int, y: int, c: int|
                final(self).holds(x, y) && 0 <= c < 4 ==> #[trigger] final(self).at(x, y, c)
                    == stamped(
                    old(self).at(x, y, c),
                    glyph@.coverage_at(glyph@.left(pen_x as int), glyph@.top(pen_y as int), x, y),
                    c,
                ),
    {
        let left: i128 = pen_x as i128 + glyph.xmin as i128;
        let top: i128 = pen_y as i128 - glyph.height as i128 - glyph.ymin as i128;
        self.stamp_box(glyph, left, top);
    }
}

/// The pixel in which a position given in subpixels lies, counted towards
/// zero.
pub open spec fn to_pixel(units: int) -> int {
    if units >= 0 {
        units / (SUBPIXELS as int)
    } else {
        -((-units) / (SUBPIXELS as int))
    }
}

pub fn pixel_of(units: i64) -> (p: i64)
    ensures
        p == to_pixel(units as int),
        -0x200_0000_0000_0000 <= p <= 0x200_0000_0000_0000,
{
    if units >= 0 {
        units / SUBPIXELS
    } else if units == i64::MIN {
        -0x200_0000_0000_0000
    } else {
        -((-units) / SUBPIXELS)
    }
}

/// The pixel in which a position given in subpixels lies, for positions
/// beyond sixty-four bits.
fn wide_pixel_of(units: i128) -> (p: i128)
    requires
        -0x10_0000_0000_0000_0000_0000_0000 <= units <= 0x10_0000_0000_0000_0000_0000_0000,
    ensures
        p == to_pixel(units as int),
        -0x10_0000_0000_0000_0000_0000_0000 <= p <= 0x10_0000_0000_0000_0000_0000_0000,
{
    if units >= 0 {
        units / (SUBPIXELS as i128)
    } else {
        -((-units) / (SUBPIXELS as i128))
    }
}

/// The color in which the glyphs of a span are painted: the span's color,
/// or white where it has none or where there is no such span.
pub open spec fn ink(spans: Seq<SpanView>, span_index: usize) -> TextColor {
    if span_index < spans.len() && spans[span_index as int].color is Some {
        spans[span_index as int].color.unwrap()
    } else {
        TextColor::Named(NamedColor::White)
    }
}

/// The byte of channel `c` of the pixel (`x`, `y`) after one glyph of a
/// text was painted over `dst` with the top left corner of its box at the
/// pixel (`left`, `top`): first, if a shadow is asked for, the glyph one
/// pixel to the right and one down in the darkened color, then the glyph
/// itself.
pub open spec fn box_pixel(
    dst: u8,
    raster: GlyphView,
    left: int,
    top: int,
    color: TextColor,
    shadow: bool,
    x: int,
    y: int,
    c: int,
) -> u8 {
    let under = if shadow {
        composited(
            dst,
            spec_shadow_color(color).spec_rgb(),
            raster.coverage_at(left + SHADOW_OFFSET, top + SHADOW_OFFSET, x, y),
            c,
        )
    } else {
        dst
    };
    composited(under, color.spec_rgb(), raster.coverage_at(left, top, x, y), c)
}

/// The byte of channel `c` of the pixel (`x`, `y`) after one glyph of a
/// text was painted over `dst` with its pen at the pixel (`pen_x`,
/// `pen_y`): its shadow first, if one is asked for, then the glyph itself.
pub open spec fn glyph_pixel(
    dst: u8,
    raster: GlyphView,
    pen_x: int,
    pen_y: int,
    color: TextColor,
    shadow: bool,
    x: int,
    y: int,
    c: int,
) -> u8 {
    box_pixel(dst, raster, raster.left(pen_x), raster.top(pen_y), color, shadow, x, y, c)
}

/// The byte of channel `c` of the pixel (`x`, `y`) after the first `n`
/// glyphs were painted over `dst`, one after the other, each with its
/// shadow before itself. The text block has its top left corner at the pixel
/// (`left`, `top`). The corner of a glyph's box is found by adding the
/// block's corner, the glyph's pen position and the glyph's offsets, and
/// cutting the sum to a whole pixel last.
pub open spec fn text_pixel(
    dst: u8,
    glyphs: Seq<PositionedGlyph>,
    rasters: Seq<GlyphView>,
    spans: Seq<SpanView>,
    left: int,
    top: int,
    shadow: bool,
    n: nat,
    x: int,
    y: int,
    c: int,
) -> u8
    decreases n,
{
    if n == 0 {
        dst
    } else {
        let g = glyphs[n - 1];
        let raster = rasters[n - 1];
        box_pixel(
            text_pixel(dst, glyphs, rasters, spans, left, top, shadow, (n - 1) as nat, x, y, c),
            raster,
            raster.left_from(SUBPIXELS * left + g.pen_x),
            raster.top_from(SUBPIXELS * top + g.pen_y),
            ink(spans, g.span_index),
            shadow,
            x,
            y,
            c,
        )
    }
}

/// The byte of channel `c` of the pixel (`x`, `y`) after the first `n`
/// characters of a text were stamped over `dst` in one face. The pen starts
/// at the left edge, on the baseline one ascent below the top; a space and a
/// control character leave no mark. The corner of a glyph's box is found by
/// adding the pen position and the glyph's offsets, and cutting the sum to a
/// whole pixel last.
pub open spec fn family_pixel(
    dst: u8,
    text: Seq<char>,
    advances: Seq<u32>,
    rasters: Seq<GlyphView>,
    size: u32,
    ascent: u32,
    n: nat,
    x: int,
    y: int,
    c: int,
) -> u8
    decreases n,
{
    if n == 0 {
        dst
    } else {
        let before = family_pixel(
            dst,
            text,
            advances,
            rasters,
            size,
            ascent,
            (n - 1) as nat,
            x,
            y,
            c,
        );
        let ch = text[n - 1];
        if ch == ' ' || is_control(ch) {
            before
        } else {
            let raster = rasters[n - 1];
            stamped(
                before,
                raster.coverage_at(
                    raster.left_from(text_width(text, advances, size, (n - 1) as nat)),
                    raster.top_from(ascent as int),
                    x,
                    y,
                ),
                c,
            )
        }
    }
}

/// The views of a vector of glyph bitmaps.
pub open spec fn raster_views(rasters: Seq<RasterizedGlyph>) -> Seq<GlyphView> {
    Seq::new(rasters.len(), |i: int| rasters[i]@)
}

/// Every byte of a buffer is one channel of one pixel inside it: the byte
/// at place `k` is channel `k % 4` of the pixel in column `(k / 4) % width`
/// and row `(k / 4) / width`.
pub proof fn lemma_byte_is_channel(width: int, height: int, k: int)
    requires
        0 <= width,
        0 <= height,
        0 <= k < width * height * 4,
    ensures
        0 <= (k / 4) % width < width,
        0 <= (k / 4) / width < height,
        0 <= k % 4 < 4,
        offset_of(width, (k / 4) % width, (k / 4) / width, k % 4) == k,
{
    let p = k / 4;
    assert(0 <= p < width * height);
    assert(width > 0) by (nonlinear_arith)
        requires
            0 <= p < width * height,
            0 <= width,
    ;
    vstd::arithmetic::div_mod::lemma_fundamental_div_mod(p, width);
    vstd::arithmetic::div_mod::lemma_mod_bound(p, width);
    let y = p / width;
    let x = p % width;
    assert(p == width * y + x);
    assert(width * y == y * width) by (nonlinear_arith);
    assert(0 <= y < height) by (nonlinear_arith)
        requires
            0 <= x < width,
            p == y * width + x,
            0 <= p < width * height,
    ;
}

/// Two buffers of one size that agree in every channel of every pixel hold
/// the same bytes.
pub proof fn lemma_same_pixels_same_bytes(a: SoftwareRenderer, b: SoftwareRenderer)
    requires
        a.spec_width() == b.spec_width(),
        a.spec_height() == b.spec_height(),
        a.bytes().len() == a.spec_width() * a.spec_height() * 4,
        b.bytes().len() == a.bytes().len(),
        forall|x: int, y: int, c: int|
            a.holds(x, y) && 0 <= c < 4 ==> #[trigger] a.at(x, y, c) == b.at(x, y, c),
    ensures
        a.bytes() == b.bytes(),
{
    let w = a.spec_width() as int;
    let h = a.spec_height() as int;
    assert forall|k: int| 0 <= k < a.bytes().len() implies a.bytes()[k] == b.bytes()[k] by {
        lemma_byte_is_channel(w, h, k);
        assert(a.at((k / 4) % w, (k / 4) / w, k % 4) == b.at((k / 4) % w, (k / 4) / w, k % 4));
    }
    assert(a.bytes() =~= b.bytes());
}

impl SoftwareRenderer {
    /// Paints one glyph of a text with the top left corner of its box at
    /// the pixel (`left`, `top`): its shadow first, if one is asked for, then
    /// the glyph.
    fn paint_box(
        &mut self,
        raster: &RasterizedGlyph,
        left: i128,
        top: i128,
        color: TextColor,
        shadow: bool,
    )
        requires
            -0x8_0000_0000_0000_0000_0000_0000 <= left <= 0x8_0000_0000_0000_0000_0000_0000,
            -0x8_0000_0000_0000_0000_0000_0000 <= top <= 0x8_0000_0000_0000_0000_0000_0000,
        ensures
            final(self).bytes().len() == old(self).bytes().len(),
            final(self).spec_width() == old(self).spec_width(),
            final(self).spec_height() == old(self).spec_height(),
            forall|x: int, y: int, c: int|
                final(self).holds(x, y) && 0 <= c < 4 ==> #[trigger] final(self).at(x, y, c)
                    == box_pixel(
                    old(self).at(x, y, c),
                    raster@,
                    left as int,
                    top as int,
                    color,
                    shadow,
                    x,
                    y,
                    c,
                ),
    {
        proof {
            use_type_invariant(&*self);
        }
        if shadow {
            self.apply_glyph(
                raster,
                left + SHADOW_OFFSET as i128,
                top + SHADOW_OFFSET as i128,
                shadow_color(color).rgb(),
                false,
            );
        }
        self.apply_glyph(raster, left, top, color.rgb(), false);
        proof {
            use_type_invariant(&*self);
        }
    }

    /// Paints one glyph of a text with its pen at the pixel (`pen_x`,
    /// `pen_y`): its shadow first, if one is asked for, then the glyph.
    pub fn draw_text_glyph(
        &mut self,
        raster: &RasterizedGlyph,
        pen_x: i64,
        pen_y: i64,
        color: TextColor,
        shadow: bool,
    )
        ensures
            final(self).bytes().len() == old(self).bytes().len(),
            final(self).spec_width() == old(self).spec_width(),
            final(self).spec_height() == old(self).spec_height(),
            forall|x: int, y: int, c: int|
                final(self).holds(x, y) && 0 <= c < 4 ==> #[trigger] final(self).at(x, y, c)
                    == glyph_pixel(
                    old(self).at(x, y, c),
                    raster@,
                    pen_x as int,
                    pen_y as int,
                    color,
                    shadow,
                    x,
                    y,
                    c,
                ),
    {
        let left: i128 = pen_x as i128 + raster.xmin as i128;
        let top: i128 = pen_y as i128 - raster.height as i128 - raster.ymin as i128;
        self.paint_box(raster, left, top, color, shadow);
    }

    /// Paints the glyphs of a laid-out text, in order, each with the bitmap
    /// at the same place of `rasters` and in the color of its span; the
    /// text block has its top left corner at the pixel (`left`, `top`). Each
    /// glyph's shadow is painted just before the glyph itself; the shadows
    /// are never all painted first. The number of bytes in the buffer stays.
    pub fn render_glyphs(
        &mut self,
        glyphs: &Vec<PositionedGlyph>,
        rasters: &Vec<RasterizedGlyph>,
        text: &McText,
        left: i32,
        top: i32,
        shadow: bool,
    )
        requires
            glyphs.len() == rasters.len(),
        ensures
            final(self).bytes().len() == old(self).bytes().len(),
            final(self).spec_width() == old(self).spec_width(),
            final(self).spec_height() == old(self).spec_height(),
            forall|x: int, y: int, c: int|
                final(self).holds(x, y) && 0 <= c < 4 ==> #[trigger] final(self).at(x, y, c)
                    == text_pixel(
                    old(self).at(x, y, c),
                    glyphs@,
                    raster_views(rasters@),
                    text@,
                    left as int,
                    top as int,
                    shadow,
                    glyphs.len() as nat,
                    x,
                    y,
                    c,
                ),
    {
        let spans = text.spans();
        let mut i: usize = 0;
        while i < glyphs.len()
            invariant
                i <= glyphs.len(),
                glyphs.len() == rasters.len(),
                span_views(spans@) == text@,
                self.bytes().len() == old(self).bytes().len(),
                self.spec_width() == old(self).spec_width(),
                self.spec_height() == old(self).spec_height(),
                forall|x: int, y: int, c: int|
                    self.holds(x, y) && 0 <= c < 4 ==> #[trigger] self.at(x, y, c) == text_pixel(
                        old(self).at(x, y, c),
                        glyphs@,
                        raster_views(rasters@),
                        text@,
                        left as int,
                        top as int,
                        shadow,
                        i as nat,
                        x,
                        y,
                        c,
                    ),
            decreases glyphs.len() - i,
        {
            let g = glyphs[i];
            let raster = &rasters[i];
            let color = if g.span_index < spans.len() {
                match spans[g.span_index].color {
                    Some(c) => c,
                    None => TextColor::Named(NamedColor::White),
                }
            } else {
                TextColor::Named(NamedColor::White)
            };
            assert(color == ink(text@, g.span_index));
            assert(raster_views(rasters@)[i as int] == raster@);
            let pen_x: i128 = SUBPIXELS as i128 * left as i128 + g.pen_x as i128;
            let pen_y: i128 = SUBPIXELS as i128 * top as i128 + g.pen_y as i128;
            let box_left = wide_pixel_of(pen_x + SUBPIXELS as i128 * raster.xmin as i128);
            let box_top = wide_pixel_of(
                pen_y - SUBPIXELS as i128 * raster.height as i128 - SUBPIXELS as i128
                    * raster.ymin as i128,
            );
            self.paint_box(raster, box_left, box_top, color, shadow);
            i += 1;
        }
    }
}

/// Renders a text in one face onto a fully transparent buffer of the given
/// size: each character that is neither a space nor a control character is
/// stamped in white, with its coverage as alpha, and the pen moves on by
/// each character's effective advance. `None` where the buffer does not fit
/// the machine.
pub fn render_family(
    text: &str,
    advances: &Vec<u32>,
    rasters: &Vec<RasterizedGlyph>,
    width: usize,
    height: usize,
    size: u32,
    ascent: u32,
) -> (r: Option<SoftwareRenderer>)
    requires
        text@.len() == advances.len(),
        text@.len() == rasters.len(),
    ensures
        r is Some <==> width * height * 4 <= usize::MAX,
        r is Some ==> {
            let s = r.unwrap();
            &&& s.spec_width() == width
            &&& s.spec_height() == height
            &&& s.bytes().len() == width * height * 4
            &&& forall|x: int, y: int, c: int|
                s.holds(x, y) && 0 <= c < 4 ==> #[trigger] s.at(x, y, c) == family_pixel(
                    0,
                    text@,
                    advances@,
                    raster_views(rasters@),
                    size,
                    ascent,
                    text@.len(),
                    x,
                    y,
                    c,
                )
        },
{
    let mut s = match SoftwareRenderer::new(width, height) {
        Some(s) => s,
        None => {
            return None;
        },
    };
    proof {
        assert forall|x: int, y: int, c: int| s.holds(x, y) && 0 <= c < 4 implies #[trigger] s.at(
            x,
            y,
            c,
        ) == 0 by {
            lemma_offsets(width as int, height as int, x, y, c);
        }
    }
    let chars = chars_of(text);
    let mut pen: i128 = 0;
    let mut i: usize = 0;
    while i < chars.len()
        invariant
            i <= chars.len(),
            chars@ == text@,
            chars.len() == advances.len(),
            chars.len() == rasters.len(),
            pen == text_width(text@, advances@, size, i as nat),
            0 <= pen <= i * 0xffff_ffff,
            s.spec_width() == width,
            s.spec_height() == height,
            s.bytes().len() == width * height * 4,
            forall|x: int, y: int, c: int|
                s.holds(x, y) && 0 <= c < 4 ==> #[trigger] s.at(x, y, c) == family_pixel(
                    0,
                    text@,
                    advances@,
                    raster_views(rasters@),
                    size,
                    ascent,
                    i as nat,
                    x,
                    y,
                    c,
                ),
        decreases chars.len() - i,
    {
        let ch = chars[i];
        let raster = &rasters[i];
        assert(i * 0xffff_ffff <= (i + 1) * 0xffff_ffff <= 0x1_0000_0000_0000_0000
            * 0xffff_ffff) by (nonlinear_arith)
            requires
                0 <= i,
                i + 1 <= 0x1_0000_0000_0000_0000,
        ;
        if !(ch == ' ' || is_control_char(ch)) {
            assert(raster_views(rasters@)[i as int] == raster@);
            let left = wide_pixel_of(pen + SUBPIXELS as i128 * raster.xmin as i128);
            let top = wide_pixel_of(
                ascent as i128 - SUBPIXELS as i128 * raster.height as i128 - SUBPIXELS as i128
                    * raster.ymin as i128,
            );
            s.stamp_box(raster, left, top);
        }
        pen += advance_of(ch, size, advances[i]) as i128;
        i += 1;
    }
    Some(s)
}

} // verus!

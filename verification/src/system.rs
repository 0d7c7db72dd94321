//! The font system: which font answers a request, and how far a character
//! moves the pen.
//!
//! The fonts themselves are read and rasterized by a font engine outside
//! this library; it hands over advances and bitmaps as plain values.

use vstd::prelude::*;
use crate::chars::{chars_of, is_control, is_control_char};
use crate::fonts::{FontAsset, FontFamily, FontVariant, FontVersion};

verus! {

/// The fonts of one version: the four Minecraft faces of that version, and
/// the one face of each special family.
#[derive(Debug, Clone, Copy, PartialEq, Eq, Structural)]
pub struct FontSystem {
    version: FontVersion,
}

/// The number of fonts that a font system holds.
pub const FACES: usize = 6;

impl FontSystem {
    pub closed spec fn spec_version(&self) -> FontVersion {
        self.version
    }

    pub fn new(version: FontVersion) -> (s: FontSystem)
        ensures
            s.spec_version() == version,
    {
        FontSystem { version }
    }

    pub fn version(&self) -> (v: FontVersion)
        ensures
            v == self.spec_version(),
    {
        self.version
    }

    /// The place of the font that answers a request among the system's
    /// fonts: the four Minecraft variants come first, then Enchanting, then
    /// Illager.
    pub open spec fn spec_slot(family: FontFamily, variant: FontVariant) -> nat {
        match family {
            FontFamily::Minecraft => match variant {
                FontVariant::Regular => 0,
                FontVariant::Bold => 1,
                FontVariant::Italic => 2,
                FontVariant::BoldItalic => 3,
            },
            FontFamily::Enchanting => 4,
            FontFamily::Illager => 5,
        }
    }

    pub fn slot(family: FontFamily, variant: FontVariant) -> (i: usize)
        ensures
            i == Self::spec_slot(family, variant),
            i < FACES,
    {
        match family {
            FontFamily::Minecraft => match variant {
                FontVariant::Regular => 0,
                FontVariant::Bold => 1,
                FontVariant::Italic => 2,
                FontVariant::BoldItalic => 3,
            },
            FontFamily::Enchanting => 4,
            FontFamily::Illager => 5,
        }
    }

    /// The fonts of the system, in the order of their places.
    pub open spec fn spec_faces(&self) -> Seq<FontAsset> {
        seq![
            FontVariant::Regular.spec_data_for_version(self.spec_version()),
            FontVariant::Bold.spec_data_for_version(self.spec_version()),
            FontVariant::Italic.spec_data_for_version(self.spec_version()),
            FontVariant::BoldItalic.spec_data_for_version(self.spec_version()),
            FontAsset::EnchantingRegular,
            FontAsset::IllagerRegular,
        ]
    }

    /// The fonts that the system loads, once each. The font at the place
    /// `slot(family, variant)` is the one that answers that request.
    pub fn faces(&self) -> (a: [FontAsset; 6])
        ensures
            a@ == self.spec_faces(),
            forall|family: FontFamily, variant: FontVariant|
                a@[Self::spec_slot(family, variant) as int] == family.spec_resolve(
                    variant,
                    self.spec_version(),
                ),
    {
        let a = [
            FontVariant::Regular.data_for_version(self.version),
            FontVariant::Bold.data_for_version(self.version),
            FontVariant::Italic.data_for_version(self.version),
            FontVariant::BoldItalic.data_for_version(self.version),
            FontAsset::EnchantingRegular,
            FontAsset::IllagerRegular,
        ];
        assert(a@ =~= self.spec_faces());
        a
    }

    /// The Minecraft face of a variant.
    pub fn font_for(&self, variant: FontVariant) -> (a: FontAsset)
        ensures
            a == FontFamily::Minecraft.spec_resolve(variant, self.spec_version()),
    {
        FontFamily::Minecraft.resolve(variant, self.version)
    }

    /// The regular face of a family. For a family other than Minecraft it
    /// is the only one.
    pub fn font_for_family(&self, family: FontFamily) -> (a: FontAsset)
        ensures
            a == family.spec_resolve(FontVariant::Regular, self.spec_version()),
    {
        family.resolve(FontVariant::Regular, self.version)
    }
}

/// The fixed advance of the space character: two fifths of the size.
pub open spec fn space_advance(size: u32) -> u32 {
    (size as int * 2 / 5) as u32
}

/// How far a character moves the pen when the font engine measured its
/// glyph as `glyph_advance`: the fixed advance for a space, nothing for a
/// control character, and the glyph's advance otherwise.
pub open spec fn effective_advance(c: char, size: u32, glyph_advance: u32) -> u32 {
    if c == ' ' {
        space_advance(size)
    } else if is_control(c) {
        0
    } else {
        glyph_advance
    }
}

pub fn advance_of(c: char, size: u32, glyph_advance: u32) -> (a: u32)
    ensures
        a == effective_advance(c, size, glyph_advance),
{
    if c == ' ' {
        ((size as u64 * 2) / 5) as u32
    } else if is_control_char(c) {
        0
    } else {
        glyph_advance
    }
}

/// The width of the first `n` characters: the sum of their effective
/// advances.
pub open spec fn text_width(text: Seq<char>, advances: Seq<u32>, size: u32, n: nat) -> int
    decreases n,
{
    if n == 0 {
        0
    } else {
        text_width(text, advances, size, (n - 1) as nat) + effective_advance(
            text[n - 1],
            size,
            advances[n - 1],
        )
    }
}

/// The width of a text at a size, given for each of its characters the
/// advance that the font engine measured.
pub fn measure_text(text: &str, advances: &Vec<u32>, size: u32) -> (w: u64)
    requires
        text@.len() == advances.len(),
        advances.len() <= u32::MAX,
    ensures
        w == text_width(text@, advances@, size, text@.len()),
{
    let chars = chars_of(text);
    let mut w: u64 = 0;
    let mut i: usize = 0;
    while i < chars.len()
        invariant
            i <= chars.len(),
            chars@ == text@,
            chars.len() == advances.len(),
            advances.len() <= u32::MAX,
            w == text_width(text@, advances@, size, i as nat),
            w <= i * 0xffff_ffff,
        decreases chars.len() - i,
    {
        assert((i + 1) * 0xffff_ffff <= 0xffff_ffff * 0xffff_ffff) by (nonlinear_arith)
            requires
                i + 1 <= 0xffff_ffff,
        ;
        w += advance_of(chars[i], size, advances[i]) as u64;
        i += 1;
    }
    w
}

} // verus!

//! Font families, versions and variants, and the rule that picks the font
//! file for a request.

use vstd::prelude::*;

verus! {

/// One of the font files that ship with the library's users. The library
/// only names them; loading the bytes is left to the caller.
#[derive(Debug, Clone, Copy, PartialEq, Eq, Hash, Structural)]
pub enum FontAsset {
    MinecraftRegular,
    MinecraftBold,
    MinecraftItalic,
    MinecraftBoldItalic,
    LegacyRegular,
    LegacyBold,
    LegacyItalic,
    LegacyBoldItalic,
    EnchantingRegular,
    IllagerRegular,
}

/// A typeface. Only `Minecraft` has bold and italic faces and a legacy
/// version; the other two have a single regular face.
#[derive(Debug, Clone, Copy, PartialEq, Eq, Hash, Structural)]
pub enum FontFamily {
    Minecraft,
    Enchanting,
    Illager,
}

/// Which generation of the Minecraft font set is used.
#[derive(Debug, Clone, Copy, PartialEq, Eq, Hash, Structural)]
pub enum FontVersion {
    Modern,
    Legacy,
}

/// One of the four faces that a style selects.
#[derive(Debug, Clone, Copy, PartialEq, Eq, Hash, Structural)]
pub enum FontVariant {
    Regular,
    Bold,
    Italic,
    BoldItalic,
}

impl Default for FontFamily {
    fn default() -> (f: FontFamily)
        ensures
            f == FontFamily::Minecraft,
    {
        FontFamily::Minecraft
    }
}

impl Default for FontVersion {
    fn default() -> (v: FontVersion)
        ensures
            v == FontVersion::Modern,
    {
        FontVersion::Modern
    }
}

impl Default for FontVariant {
    fn default() -> (v: FontVariant)
        ensures
            v == FontVariant::Regular,
    {
        FontVariant::Regular
    }
}

impl FontAsset {
    /// Where the file lies below the directory of font assets.
    pub open spec fn spec_path(self) -> Seq<char> {
        match self {
            FontAsset::MinecraftRegular => "modern/minecraft.ttf"@,
            FontAsset::MinecraftBold => "modern/minecraft-bold.ttf"@,
            FontAsset::MinecraftItalic => "modern/minecraft-italic.ttf"@,
            FontAsset::MinecraftBoldItalic => "modern/minecraft-bold-italic.ttf"@,
            FontAsset::LegacyRegular => "legacy/minecraft.ttf"@,
            FontAsset::LegacyBold => "legacy/minecraft-bold.ttf"@,
            FontAsset::LegacyItalic => "legacy/minecraft-italic.ttf"@,
            FontAsset::LegacyBoldItalic => "legacy/minecraft-bold-italic.ttf"@,
            FontAsset::EnchantingRegular => "modern/enchanting.ttf"@,
            FontAsset::IllagerRegular => "modern/illager.ttf"@,
        }
    }

    pub fn path(&self) -> (p: &'static str)
        ensures
            p@ == self.spec_path(),
    {
        match self {
            FontAsset::MinecraftRegular => "modern/minecraft.ttf",
            FontAsset::MinecraftBold => "modern/minecraft-bold.ttf",
            FontAsset::MinecraftItalic => "modern/minecraft-italic.ttf",
            FontAsset::MinecraftBoldItalic => "modern/minecraft-bold-italic.ttf",
            FontAsset::LegacyRegular => "legacy/minecraft.ttf",
            FontAsset::LegacyBold => "legacy/minecraft-bold.ttf",
            FontAsset::LegacyItalic => "legacy/minecraft-italic.ttf",
            FontAsset::LegacyBoldItalic => "legacy/minecraft-bold-italic.ttf",
            FontAsset::EnchantingRegular => "modern/enchanting.ttf",
            FontAsset::IllagerRegular => "modern/illager.ttf",
        }
    }
}

impl FontFamily {
    /// The family's regular face, in the modern set.
    pub open spec fn spec_data(self) -> FontAsset {
        match self {
            FontFamily::Minecraft => FontAsset::MinecraftRegular,
            FontFamily::Enchanting => FontAsset::EnchantingRegular,
            FontFamily::Illager => FontAsset::IllagerRegular,
        }
    }

    pub fn data(&self) -> (a: FontAsset)
        ensures
            a == self.spec_data(),
    {
        match self {
            FontFamily::Minecraft => FontAsset::MinecraftRegular,
            FontFamily::Enchanting => FontAsset::EnchantingRegular,
            FontFamily::Illager => FontAsset::IllagerRegular,
        }
    }

    pub open spec fn spec_supports_styles(self) -> bool {
        self == FontFamily::Minecraft
    }

    /// Whether the family has bold and italic faces of its own.
    pub fn supports_styles(&self) -> (b: bool)
        ensures
            b == self.spec_supports_styles(),
    {
        match self {
            FontFamily::Minecraft => true,
            _ => false,
        }
    }

    /// The font that answers a request. A family without styles answers
    /// every variant and version with its one face.
    pub open spec fn spec_resolve(self, variant: FontVariant, version: FontVersion) -> FontAsset {
        if self.spec_supports_styles() {
            variant.spec_data_for_version(version)
        } else {
            self.spec_data()
        }
    }

    pub fn resolve(&self, variant: FontVariant, version: FontVersion) -> (a: FontAsset)
        ensures
            a == self.spec_resolve(variant, version),
            !self.spec_supports_styles() ==> a == self.spec_data(),
    {
        if self.supports_styles() {
            variant.data_for_version(version)
        } else {
            self.data()
        }
    }
}

impl FontVariant {
    /// The face that the two toggles select.
    pub open spec fn spec_from_style(bold: bool, italic: bool) -> FontVariant {
        if bold && italic {
            FontVariant::BoldItalic
        } else if bold {
            FontVariant::Bold
        } else if italic {
            FontVariant::Italic
        } else {
            FontVariant::Regular
        }
    }

    pub fn from_style(bold: bool, italic: bool) -> (v: FontVariant)
        ensures
            v == Self::spec_from_style(bold, italic),
    {
        match (bold, italic) {
            (true, true) => FontVariant::BoldItalic,
            (true, false) => FontVariant::Bold,
            (false, true) => FontVariant::Italic,
            (false, false) => FontVariant::Regular,
        }
    }

    pub open spec fn spec_is_bold(self) -> bool {
        self == FontVariant::Bold || self == FontVariant::BoldItalic
    }

    pub open spec fn spec_is_italic(self) -> bool {
        self == FontVariant::Italic || self == FontVariant::BoldItalic
    }

    /// The Minecraft face of this variant in the given version.
    pub open spec fn spec_data_for_version(self, version: FontVersion) -> FontAsset {
        match (version, self) {
            (FontVersion::Modern, FontVariant::Regular) => FontAsset::MinecraftRegular,
            (FontVersion::Modern, FontVariant::Bold) => FontAsset::MinecraftBold,
            (FontVersion::Modern, FontVariant::Italic) => FontAsset::MinecraftItalic,
            (FontVersion::Modern, FontVariant::BoldItalic) => FontAsset::MinecraftBoldItalic,
            (FontVersion::Legacy, FontVariant::Regular) => FontAsset::LegacyRegular,
            (FontVersion::Legacy, FontVariant::Bold) => FontAsset::LegacyBold,
            (FontVersion::Legacy, FontVariant::Italic) => FontAsset::LegacyItalic,
            (FontVersion::Legacy, FontVariant::BoldItalic) => FontAsset::LegacyBoldItalic,
        }
    }

    /// The Minecraft face of this variant in the modern version.
    pub fn data(&self) -> (a: FontAsset)
        ensures
            a == self.spec_data_for_version(FontVersion::Modern),
    {
        self.data_for_version(FontVersion::Modern)
    }

    pub fn data_for_version(&self, version: FontVersion) -> (a: FontAsset)
        ensures
            a == self.spec_data_for_version(version),
    {
        match (version, self) {
            (FontVersion::Modern, FontVariant::Regular) => FontAsset::MinecraftRegular,
            (FontVersion::Modern, FontVariant::Bold) => FontAsset::MinecraftBold,
            (FontVersion::Modern, FontVariant::Italic) => FontAsset::MinecraftItalic,
            (FontVersion::Modern, FontVariant::BoldItalic) => FontAsset::MinecraftBoldItalic,
            (FontVersion::Legacy, FontVariant::Regular) => FontAsset::LegacyRegular,
            (FontVersion::Legacy, FontVariant::Bold) => FontAsset::LegacyBold,
            (FontVersion::Legacy, FontVariant::Italic) => FontAsset::LegacyItalic,
            (FontVersion::Legacy, FontVariant::BoldItalic) => FontAsset::LegacyBoldItalic,
        }
    }
}

/// Each pair of toggles selects its own variant, and the variant tells the
/// toggles back.
pub proof fn lemma_from_style_is_one_to_one(bold: bool, italic: bool)
    ensures
        FontVariant::spec_from_style(bold, italic).spec_is_bold() == bold,
        FontVariant::spec_from_style(bold, italic).spec_is_italic() == italic,
{
}

/// Distinct (version, variant) pairs of the Minecraft family use distinct
/// font files, and none of them is the face of a special family.
pub proof fn lemma_minecraft_faces_are_distinct(
    v1: FontVariant,
    ver1: FontVersion,
    v2: FontVariant,
    ver2: FontVersion,
)
    ensures
        v1.spec_data_for_version(ver1) == v2.spec_data_for_version(ver2) ==> v1 == v2 && ver1
            == ver2,
        v1.spec_data_for_version(ver1) != FontAsset::EnchantingRegular,
        v1.spec_data_for_version(ver1) != FontAsset::IllagerRegular,
{
}

} // verus!

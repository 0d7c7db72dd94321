//! The five style toggles of a run of text.

use vstd::prelude::*;
use crate::fonts::FontVariant;

verus! {

/// Five independent toggles. Nothing is inherited at this level.
#[derive(Debug, Clone, Copy, PartialEq, Eq, Hash, Structural)]
pub struct Style {
    pub bold: bool,
    pub italic: bool,
    pub underlined: bool,
    pub strikethrough: bool,
    pub obfuscated: bool,
}

impl Default for Style {
    fn default() -> (s: Style)
        ensures
            s == Style::plain(),
    {
        Style::new()
    }
}

impl Style {
    /// The style with every toggle off.
    pub open spec fn plain() -> Style {
        Style {
            bold: false,
            italic: false,
            underlined: false,
            strikethrough: false,
            obfuscated: false,
        }
    }

    pub fn new() -> (s: Style)
        ensures
            s == Style::plain(),
    {
        Style {
            bold: false,
            italic: false,
            underlined: false,
            strikethrough: false,
            obfuscated: false,
        }
    }

    pub open spec fn spec_is_plain(self) -> bool {
        self == Style::plain()
    }

    /// Whether every toggle is off.
    pub fn is_plain(&self) -> (b: bool)
        ensures
            b == self.spec_is_plain(),
    {
        !self.bold && !self.italic && !self.underlined && !self.strikethrough && !self.obfuscated
    }

    /// Whether every toggle that is on in `self` is on in `other`.
    pub open spec fn spec_within(self, other: Style) -> bool {
        &&& self.bold ==> other.bold
        &&& self.italic ==> other.italic
        &&& self.underlined ==> other.underlined
        &&& self.strikethrough ==> other.strikethrough
        &&& self.obfuscated ==> other.obfuscated
    }

    pub fn within(&self, other: &Style) -> (b: bool)
        ensures
            b == self.spec_within(*other),
    {
        (!self.bold || other.bold) && (!self.italic || other.italic) && (!self.underlined
            || other.underlined) && (!self.strikethrough || other.strikethrough) && (
        !self.obfuscated || other.obfuscated)
    }

    pub open spec fn spec_variant(self) -> FontVariant {
        FontVariant::spec_from_style(self.bold, self.italic)
    }

    /// The font variant that this style selects.
    pub fn variant(&self) -> (v: FontVariant)
        ensures
            v == self.spec_variant(),
    {
        FontVariant::from_style(self.bold, self.italic)
    }
}

} // verus!

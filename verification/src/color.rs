//! The sixteen named chat colors, arbitrary RGB colors, and the rule that
//! darkens a color for its drop shadow.

use vstd::prelude::*;
use crate::chars::{chars_of, hex_char, hex_digit, hex_digit_value, hex_value, same_text};

verus! {

/// How far, in pixels, a drop shadow lies to the right of and below its
/// glyph.
pub const SHADOW_OFFSET: i32 = 1;

/// The closed set of chat colors.
#[derive(Debug, Clone, Copy, PartialEq, Eq, Hash, Structural)]
pub enum NamedColor {
    Black,
    DarkBlue,
    DarkGreen,
    DarkAqua,
    DarkRed,
    DarkPurple,
    Gold,
    Gray,
    DarkGray,
    Blue,
    Green,
    Aqua,
    Red,
    LightPurple,
    Yellow,
    White,
}

/// A color of text: one of the named colors, or any RGB value.
#[derive(Debug, Clone, Copy, PartialEq, Eq, Hash, Structural)]
pub enum TextColor {
    Named(NamedColor),
    Rgb { r: u8, g: u8, b: u8 },
}

impl NamedColor {
    /// The palette in its fixed order.
    pub open spec fn spec_all() -> Seq<NamedColor> {
        seq![
            NamedColor::Black,
            NamedColor::DarkBlue,
            NamedColor::DarkGreen,
            NamedColor::DarkAqua,
            NamedColor::DarkRed,
            NamedColor::DarkPurple,
            NamedColor::Gold,
            NamedColor::Gray,
            NamedColor::DarkGray,
            NamedColor::Blue,
            NamedColor::Green,
            NamedColor::Aqua,
            NamedColor::Red,
            NamedColor::LightPurple,
            NamedColor::Yellow,
            NamedColor::White,
        ]
    }

    /// The palette in its fixed order.
    pub const ALL: [NamedColor; 16] = [
        NamedColor::Black,
        NamedColor::DarkBlue,
        NamedColor::DarkGreen,
        NamedColor::DarkAqua,
        NamedColor::DarkRed,
        NamedColor::DarkPurple,
        NamedColor::Gold,
        NamedColor::Gray,
        NamedColor::DarkGray,
        NamedColor::Blue,
        NamedColor::Green,
        NamedColor::Aqua,
        NamedColor::Red,
        NamedColor::LightPurple,
        NamedColor::Yellow,
        NamedColor::White,
    ];

    /// The palette in its fixed order.
    pub fn all() -> (a: [NamedColor; 16])
        ensures
            a@ == Self::spec_all(),
    {
        let a = Self::ALL;
        assert(a@ =~= Self::spec_all());
        a
    }

    /// The place of the color in the palette.
    pub open spec fn spec_index(self) -> nat {
        match self {
            NamedColor::Black => 0,
            NamedColor::DarkBlue => 1,
            NamedColor::DarkGreen => 2,
            NamedColor::DarkAqua => 3,
            NamedColor::DarkRed => 4,
            NamedColor::DarkPurple => 5,
            NamedColor::Gold => 6,
            NamedColor::Gray => 7,
            NamedColor::DarkGray => 8,
            NamedColor::Blue => 9,
            NamedColor::Green => 10,
            NamedColor::Aqua => 11,
            NamedColor::Red => 12,
            NamedColor::LightPurple => 13,
            NamedColor::Yellow => 14,
            NamedColor::White => 15,
        }
    }

    pub fn index(&self) -> (i: u8)
        ensures
            i == self.spec_index(),
            i < 16,
    {
        match self {
            NamedColor::Black => 0,
            NamedColor::DarkBlue => 1,
            NamedColor::DarkGreen => 2,
            NamedColor::DarkAqua => 3,
            NamedColor::DarkRed => 4,
            NamedColor::DarkPurple => 5,
            NamedColor::Gold => 6,
            NamedColor::Gray => 7,
            NamedColor::DarkGray => 8,
            NamedColor::Blue => 9,
            NamedColor::Green => 10,
            NamedColor::Aqua => 11,
            NamedColor::Red => 12,
            NamedColor::LightPurple => 13,
            NamedColor::Yellow => 14,
            NamedColor::White => 15,
        }
    }

    /// The color at a place of the palette.
    pub open spec fn spec_from_index(i: nat) -> Option<NamedColor> {
        if i < 16 {
            Some(Self::spec_all()[i as int])
        } else {
            None
        }
    }

    pub fn from_index(i: u8) -> (c: Option<NamedColor>)
        ensures
            c == Self::spec_from_index(i as nat),
            c is Some <==> i < 16,
            c is Some ==> c.unwrap().spec_index() == i,
    {
        match i {
            0 => Some(NamedColor::Black),
            1 => Some(NamedColor::DarkBlue),
            2 => Some(NamedColor::DarkGreen),
            3 => Some(NamedColor::DarkAqua),
            4 => Some(NamedColor::DarkRed),
            5 => Some(NamedColor::DarkPurple),
            6 => Some(NamedColor::Gold),
            7 => Some(NamedColor::Gray),
            8 => Some(NamedColor::DarkGray),
            9 => Some(NamedColor::Blue),
            10 => Some(NamedColor::Green),
            11 => Some(NamedColor::Aqua),
            12 => Some(NamedColor::Red),
            13 => Some(NamedColor::LightPurple),
            14 => Some(NamedColor::Yellow),
            15 => Some(NamedColor::White),
            _ => None,
        }
    }

    /// The display name: lower case, words joined by an underscore.
    pub open spec fn spec_name(self) -> Seq<char> {
        match self {
            NamedColor::Black => "black"@,
            NamedColor::DarkBlue => "dark_blue"@,
            NamedColor::DarkGreen => "dark_green"@,
            NamedColor::DarkAqua => "dark_aqua"@,
            NamedColor::DarkRed => "dark_red"@,
            NamedColor::DarkPurple => "dark_purple"@,
            NamedColor::Gold => "gold"@,
            NamedColor::Gray => "gray"@,
            NamedColor::DarkGray => "dark_gray"@,
            NamedColor::Blue => "blue"@,
            NamedColor::Green => "green"@,
            NamedColor::Aqua => "aqua"@,
            NamedColor::Red => "red"@,
            NamedColor::LightPurple => "light_purple"@,
            NamedColor::Yellow => "yellow"@,
            NamedColor::White => "white"@,
        }
    }

    pub fn name(&self) -> (n: &'static str)
        ensures
            n@ == self.spec_name(),
    {
        match self {
            NamedColor::Black => "black",
            NamedColor::DarkBlue => "dark_blue",
            NamedColor::DarkGreen => "dark_green",
            NamedColor::DarkAqua => "dark_aqua",
            NamedColor::DarkRed => "dark_red",
            NamedColor::DarkPurple => "dark_purple",
            NamedColor::Gold => "gold",
            NamedColor::Gray => "gray",
            NamedColor::DarkGray => "dark_gray",
            NamedColor::Blue => "blue",
            NamedColor::Green => "green",
            NamedColor::Aqua => "aqua",
            NamedColor::Red => "red",
            NamedColor::LightPurple => "light_purple",
            NamedColor::Yellow => "yellow",
            NamedColor::White => "white",
        }
    }

    /// The legacy code: the lower-case hexadecimal digit of the color's place
    /// in the palette.
    pub open spec fn spec_code(self) -> char {
        hex_char(self.spec_index() as u8)
    }

    pub fn code(&self) -> (c: char)
        ensures
            c == self.spec_code(),
            hex_value(c) == Some(self.spec_index() as u8),
    {
        hex_digit(self.index())
    }

    /// The color that a legacy code selects; the letters count in either
    /// case.
    pub open spec fn spec_from_code(c: char) -> Option<NamedColor> {
        match hex_value(c) {
            Some(v) => Self::spec_from_index(v as nat),
            None => None,
        }
    }

    pub fn from_code(c: char) -> (r: Option<NamedColor>)
        ensures
            r == Self::spec_from_code(c),
            r is Some <==> hex_value(c) is Some,
    {
        match hex_digit_value(c) {
            Some(v) => Self::from_index(v),
            None => None,
        }
    }

    /// The color's fixed RGB triple.
    pub open spec fn spec_rgb(self) -> (u8, u8, u8) {
        match self {
            NamedColor::Black => (0u8, 0u8, 0u8),
            NamedColor::DarkBlue => (0u8, 0u8, 170u8),
            NamedColor::DarkGreen => (0u8, 170u8, 0u8),
            NamedColor::DarkAqua => (0u8, 170u8, 170u8),
            NamedColor::DarkRed => (170u8, 0u8, 0u8),
            NamedColor::DarkPurple => (170u8, 0u8, 170u8),
            NamedColor::Gold => (255u8, 170u8, 0u8),
            NamedColor::Gray => (170u8, 170u8, 170u8),
            NamedColor::DarkGray => (85u8, 85u8, 85u8),
            NamedColor::Blue => (85u8, 85u8, 255u8),
            NamedColor::Green => (85u8, 255u8, 85u8),
            NamedColor::Aqua => (85u8, 255u8, 255u8),
            NamedColor::Red => (255u8, 85u8, 85u8),
            NamedColor::LightPurple => (255u8, 85u8, 255u8),
            NamedColor::Yellow => (255u8, 255u8, 85u8),
            NamedColor::White => (255u8, 255u8, 255u8),
        }
    }

    pub fn rgb(&self) -> (t: (u8, u8, u8))
        ensures
            t == self.spec_rgb(),
    {
        match self {
            NamedColor::Black => (0, 0, 0),
            NamedColor::DarkBlue => (0, 0, 170),
            NamedColor::DarkGreen => (0, 170, 0),
            NamedColor::DarkAqua => (0, 170, 170),
            NamedColor::DarkRed => (170, 0, 0),
            NamedColor::DarkPurple => (170, 0, 170),
            NamedColor::Gold => (255, 170, 0),
            NamedColor::Gray => (170, 170, 170),
            NamedColor::DarkGray => (85, 85, 85),
            NamedColor::Blue => (85, 85, 255),
            NamedColor::Green => (85, 255, 85),
            NamedColor::Aqua => (85, 255, 255),
            NamedColor::Red => (255, 85, 85),
            NamedColor::LightPurple => (255, 85, 255),
            NamedColor::Yellow => (255, 255, 85),
            NamedColor::White => (255, 255, 255),
        }
    }

    /// The color with the given display name.
    pub open spec fn spec_from_name(s: Seq<char>) -> Option<NamedColor> {
        if exists|i: int| 0 <= i < 16 && #[trigger] Self::spec_all()[i].spec_name() == s {
            let i = choose|i: int| 0 <= i < 16 && #[trigger] Self::spec_all()[i].spec_name() == s;
            Some(Self::spec_all()[i])
        } else {
            None
        }
    }

    pub fn from_name(s: &str) -> (r: Option<NamedColor>)
        ensures
            r == Self::spec_from_name(s@),
            r is Some ==> r.unwrap().spec_name() == s@,
            r is None ==> forall|c: NamedColor| c.spec_name() != s@,
    {
        let all = Self::all();
        let mut i: usize = 0;
        while i < 16
            invariant
                i <= 16,
                all@ == Self::spec_all(),
                forall|j: int| 0 <= j < i ==> (#[trigger] Self::spec_all()[j]).spec_name() != s@,
            decreases 16 - i,
        {
            let c = all[i];
            if same_text(c.name(), s) {
                proof {
                    lemma_names_are_distinct();
                    assert(Self::spec_all()[i as int].spec_name() == s@);
                }
                return Some(c);
            }
            i += 1;
        }
        proof {
            assert forall|c: NamedColor| c.spec_name() != s@ by {
                assert(Self::spec_all()[c.spec_index() as int] == c);
            }
        }
        None
    }
}

impl TextColor {
    /// The color's RGB triple: the fixed one of a named color, or its own.
    pub open spec fn spec_rgb(self) -> (u8, u8, u8) {
        match self {
            TextColor::Named(n) => n.spec_rgb(),
            TextColor::Rgb { r, g, b } => (r, g, b),
        }
    }

    pub fn rgb(&self) -> (t: (u8, u8, u8))
        ensures
            t == self.spec_rgb(),
    {
        match self {
            TextColor::Named(n) => n.rgb(),
            TextColor::Rgb { r, g, b } => (*r, *g, *b),
        }
    }

    /// `#` and six lower-case hexadecimal digits: red, green, blue.
    pub open spec fn spec_to_hex(self) -> Seq<char> {
        let (r, g, b) = self.spec_rgb();
        seq![
            '#',
            hex_char(r / 16),
            hex_char(r % 16),
            hex_char(g / 16),
            hex_char(g % 16),
            hex_char(b / 16),
            hex_char(b % 16),
        ]
    }

    pub fn to_hex(&self) -> (s: String)
        ensures
            s@ == self.spec_to_hex(),
    {
        let (r, g, b) = self.rgb();
        let mut s = String::new();
        s.push('#');
        s.push(hex_digit(r / 16));
        s.push(hex_digit(r % 16));
        s.push(hex_digit(g / 16));
        s.push(hex_digit(g % 16));
        s.push(hex_digit(b / 16));
        s.push(hex_digit(b % 16));
        assert(s@ =~= self.spec_to_hex());
        s
    }

    /// The color that `#` and six hexadecimal digits, in either case, stand
    /// for.
    pub open spec fn spec_from_hex(s: Seq<char>) -> Option<TextColor> {
        if s.len() == 7 && s[0] == '#' && (forall|i: int| 1 <= i < 7 ==> hex_value(s[i]) is Some) {
            Some(
                TextColor::Rgb {
                    r: (hex_value(s[1]).unwrap() * 16 + hex_value(s[2]).unwrap()) as u8,
                    g: (hex_value(s[3]).unwrap() * 16 + hex_value(s[4]).unwrap()) as u8,
                    b: (hex_value(s[5]).unwrap() * 16 + hex_value(s[6]).unwrap()) as u8,
                },
            )
        } else {
            None
        }
    }

    pub fn from_hex(s: &str) -> (r: Option<TextColor>)
        ensures
            r == Self::spec_from_hex(s@),
    {
        let v = chars_of(s);
        if v.len() != 7 || v[0] != '#' {
            return None;
        }
        let mut d: [u8; 7] = [0u8; 7];
        let mut i: usize = 1;
        while i < 7
            invariant
                1 <= i <= 7,
                v@ == s@,
                v.len() == 7,
                forall|j: int| 1 <= j < i ==> hex_value(s@[j]) == Some(#[trigger] d@[j]),
            decreases 7 - i,
        {
            match hex_digit_value(v[i]) {
                Some(x) => {
                    d[i] = x;
                },
                None => {
                    return None;
                },
            }
            i += 1;
        }
        assert(forall|j: int| 1 <= j < 7 ==> hex_value(s@[j]) == Some(#[trigger] d@[j]));
        assert(d@[1] < 16 && d@[2] < 16 && d@[3] < 16 && d@[4] < 16 && d@[5] < 16 && d@[6] < 16);
        Some(TextColor::Rgb { r: d[1] * 16 + d[2], g: d[3] * 16 + d[4], b: d[5] * 16 + d[6] })
    }

    /// What a color name, a single legacy code or a hex string stands for;
    /// `None` for anything else.
    pub open spec fn spec_parse(s: Seq<char>) -> Option<TextColor> {
        if NamedColor::spec_from_name(s) is Some {
            Some(TextColor::Named(NamedColor::spec_from_name(s).unwrap()))
        } else if s.len() == 1 && NamedColor::spec_from_code(s[0]) is Some {
            Some(TextColor::Named(NamedColor::spec_from_code(s[0]).unwrap()))
        } else {
            Self::spec_from_hex(s)
        }
    }

    /// Reads a color from a lower-case color name, from a single legacy
    /// code, or from `#RRGGBB`. Any other input gives `None`.
    pub fn parse(input: &str) -> (r: Option<TextColor>)
        ensures
            r == Self::spec_parse(input@),
    {
        if let Some(n) = NamedColor::from_name(input) {
            return Some(TextColor::Named(n));
        }
        let v = chars_of(input);
        if v.len() == 1 {
            if let Some(n) = NamedColor::from_code(v[0]) {
                return Some(TextColor::Named(n));
            }
        }
        Self::from_hex(input)
    }

    /// The legacy color of this color, if it has one: a named color has,
    /// an RGB value has not.
    pub open spec fn spec_named(self) -> Option<NamedColor> {
        match self {
            TextColor::Named(n) => Some(n),
            TextColor::Rgb { .. } => None,
        }
    }

    pub fn named(&self) -> (n: Option<NamedColor>)
        ensures
            n == self.spec_named(),
    {
        match self {
            TextColor::Named(n) => Some(*n),
            TextColor::Rgb { .. } => None,
        }
    }

    /// The text by which the color is written in a component tree: the name
    /// of a named color, the hex string of an RGB value.
    pub open spec fn spec_label(self) -> Seq<char> {
        match self {
            TextColor::Named(n) => n.spec_name(),
            TextColor::Rgb { .. } => self.spec_to_hex(),
        }
    }

    pub fn label(&self) -> (s: String)
        ensures
            s@ == self.spec_label(),
    {
        match self {
            TextColor::Named(n) => {
                let name = n.name();
                name.to_owned()
            },
            TextColor::Rgb { .. } => self.to_hex(),
        }
    }
}

impl From<NamedColor> for TextColor {
    fn from(n: NamedColor) -> (c: TextColor) {
        TextColor::Named(n)
    }
}

impl vstd::std_specs::convert::FromSpecImpl<NamedColor> for TextColor {
    open spec fn obeys_from_spec() -> bool {
        true
    }

    open spec fn from_spec(n: NamedColor) -> TextColor {
        TextColor::Named(n)
    }
}

/// The palette as a table: for each named color, in the palette's order,
/// its display name, its legacy code and its RGB triple.
pub fn named_colors() -> (table: Vec<(String, char, (u8, u8, u8))>)
    ensures
        table@.len() == 16,
        forall|i: int|
            0 <= i < 16 ==> {
                let color = NamedColor::spec_all()[i];
                &&& (#[trigger] table@[i]).0@ == color.spec_name()
                &&& table@[i].1 == color.spec_code()
                &&& table@[i].2 == color.spec_rgb()
            },
{
    let all = NamedColor::all();
    let mut table: Vec<(String, char, (u8, u8, u8))> = Vec::new();
    let mut i: usize = 0;
    while i < 16
        invariant
            i <= 16,
            all@ == NamedColor::spec_all(),
            table@.len() == i,
            forall|j: int|
                0 <= j < i ==> {
                    let color = NamedColor::spec_all()[j];
                    &&& (#[trigger] table@[j]).0@ == color.spec_name()
                    &&& table@[j].1 == color.spec_code()
                    &&& table@[j].2 == color.spec_rgb()
                },
        decreases 16 - i,
    {
        let color = all[i];
        let name = color.name();
        table.push((name.to_owned(), color.code(), color.rgb()));
        i += 1;
    }
    table
}

pub open spec fn spec_shadow_color(c: TextColor) -> TextColor {
    let (r, g, b) = c.spec_rgb();
    TextColor::Rgb { r: r / 4, g: g / 4, b: b / 4 }
}

/// The darkened companion of a color, painted under text as its drop
/// shadow: each channel divided by four, rounding down.
pub fn shadow_color(c: TextColor) -> (s: TextColor)
    ensures
        s == spec_shadow_color(c),
{
    let (r, g, b) = c.rgb();
    TextColor::Rgb { r: r / 4, g: g / 4, b: b / 4 }
}

/// Reading a color's hex string gives its RGB value back.
pub proof fn lemma_hex_round_trip(c: TextColor)
    ensures
        TextColor::spec_from_hex(c.spec_to_hex()) == Some(
            TextColor::Rgb { r: c.spec_rgb().0, g: c.spec_rgb().1, b: c.spec_rgb().2 },
        ),
{
    let (r, g, b) = c.spec_rgb();
    let s = c.spec_to_hex();
    lemma_hex_digits(r);
    lemma_hex_digits(g);
    lemma_hex_digits(b);
    assert(s[1] == hex_char(r / 16));
    assert(s[2] == hex_char(r % 16));
    assert(s[3] == hex_char(g / 16));
    assert(s[4] == hex_char(g % 16));
    assert(s[5] == hex_char(b / 16));
    assert(s[6] == hex_char(b % 16));
}

proof fn lemma_hex_digits(x: u8)
    ensures
        hex_value(hex_char(x / 16)) == Some((x / 16) as u8),
        hex_value(hex_char(x % 16)) == Some((x % 16) as u8),
        (x / 16) * 16 + x % 16 == x,
{
}

/// Reading the text by which a color is written gives the color back: a
/// named color stays named, an RGB value stays an RGB value.
pub proof fn lemma_label_round_trip(c: TextColor)
    ensures
        TextColor::spec_parse(c.spec_label()) == Some(c),
{
    lemma_names_are_distinct();
    match c {
        TextColor::Named(n) => {
            assert(NamedColor::spec_all()[n.spec_index() as int] == n);
            let i = choose|i: int|
                0 <= i < 16 && #[trigger] NamedColor::spec_all()[i].spec_name() == n.spec_name();
            assert(NamedColor::spec_all()[i] == n);
        },
        TextColor::Rgb { r, g, b } => {
            lemma_hex_round_trip(c);
            let s = c.spec_to_hex();
            assert(s[0] == '#');
            assert(hex_value('#') is None);
            assert forall|i: int| 0 <= i < 16 implies #[trigger] NamedColor::spec_all()[i].spec_name()
                != s by {
                assert(NamedColor::spec_all()[i].spec_name()[0] != '#');
            }
        },
    }
}

/// No two colors of the palette share a display name.
pub proof fn lemma_names_are_distinct()
    ensures
        forall|a: NamedColor, b: NamedColor| a.spec_name() == b.spec_name() ==> a == b,
        forall|a: NamedColor| a.spec_name().len() >= 3 && a.spec_name()[0] != '#',
{
    reveal_strlit("black");
    reveal_strlit("dark_blue");
    reveal_strlit("dark_green");
    reveal_strlit("dark_aqua");
    reveal_strlit("dark_red");
    reveal_strlit("dark_purple");
    reveal_strlit("gold");
    reveal_strlit("gray");
    reveal_strlit("dark_gray");
    reveal_strlit("blue");
    reveal_strlit("green");
    reveal_strlit("aqua");
    reveal_strlit("red");
    reveal_strlit("light_purple");
    reveal_strlit("yellow");
    reveal_strlit("white");
    assert forall|a: NamedColor, b: NamedColor| a.spec_name() == b.spec_name() implies a == b by {
        let x = a.spec_name();
        let y = b.spec_name();
        assert(x.len() == y.len());
        assert(x[0] == y[0]);
        assert(x[2] == y[2]);
        if x.len() >= 9 {
            assert(x[5] == y[5]);
            assert(x[6] == y[6]);
        }
    }
}

/// The palette has sixteen entries; their codes are sixteen different
/// characters among `0` to `9` and `a` to `f`, and their RGB triples are all
/// different.
pub proof fn lemma_palette_is_distinct()
    ensures
        NamedColor::spec_all().len() == 16,
        NamedColor::spec_all().no_duplicates(),
        forall|c: NamedColor| NamedColor::spec_all()[c.spec_index() as int] == c,
        forall|c: NamedColor|
            '0' <= (#[trigger] c.spec_code()) <= '9' || 'a' <= c.spec_code() <= 'f',
        forall|a: NamedColor, b: NamedColor| a.spec_code() == b.spec_code() ==> a == b,
        forall|a: NamedColor, b: NamedColor| a.spec_rgb() == b.spec_rgb() ==> a == b,
        forall|c: NamedColor| NamedColor::spec_from_code(c.spec_code()) == Some(c),
{
    assert forall|i: int, j: int|
        0 <= i < 16 && 0 <= j < 16 && i != j implies NamedColor::spec_all()[i]
        != NamedColor::spec_all()[j] by {
        assert(NamedColor::spec_all()[i].spec_index() == i);
        assert(NamedColor::spec_all()[j].spec_index() == j);
    }
}

} // verus!

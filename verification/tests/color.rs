use mctext::{shadow_color, NamedColor, TextColor, SHADOW_OFFSET};

#[test]
fn shadow_of_white_is_63() {
    assert_eq!(
        shadow_color(TextColor::Rgb { r: 255, g: 255, b: 255 }),
        TextColor::Rgb { r: 63, g: 63, b: 63 }
    );
}

#[test]
fn shadow_of_named_color_uses_its_rgb() {
    assert_eq!(
        shadow_color(TextColor::Named(NamedColor::Gold)),
        TextColor::Rgb { r: 63, g: 42, b: 0 }
    );
    assert_eq!(
        shadow_color(TextColor::Rgb { r: 3, g: 4, b: 7 }),
        TextColor::Rgb { r: 0, g: 1, b: 1 }
    );
}

#[test]
fn shadow_offset_is_one_pixel() {
    assert_eq!(SHADOW_OFFSET, 1);
}

#[test]
fn palette_has_sixteen_distinct_entries() {
    let all = NamedColor::all();
    assert_eq!(all.len(), 16);
    for i in 0..16 {
        let code = all[i].code();
        assert!(code.is_ascii_digit() || ('a'..='f').contains(&code));
        assert_eq!(all[i].index() as usize, i);
        for j in 0..16 {
            if i != j {
                assert_ne!(all[i], all[j]);
                assert_ne!(all[i].code(), all[j].code());
                assert_ne!(all[i].rgb(), all[j].rgb());
                assert_ne!(all[i].name(), all[j].name());
            }
        }
    }
}

#[test]
fn palette_order_and_values() {
    let all = NamedColor::all();
    assert_eq!(all[0], NamedColor::Black);
    assert_eq!(all[6], NamedColor::Gold);
    assert_eq!(all[12], NamedColor::Red);
    assert_eq!(all[15], NamedColor::White);
    assert_eq!(NamedColor::Red.code(), 'c');
    assert_eq!(NamedColor::Red.name(), "red");
    assert_eq!(NamedColor::Red.rgb(), (255, 85, 85));
    assert_eq!(NamedColor::Black.code(), '0');
    assert_eq!(NamedColor::Blue.code(), '9');
    assert_eq!(NamedColor::Green.code(), 'a');
    assert_eq!(NamedColor::DarkPurple.name(), "dark_purple");
    assert_eq!(NamedColor::LightPurple.rgb(), (255, 85, 255));
    assert_eq!(NamedColor::Gold.rgb(), (255, 170, 0));
    assert_eq!(NamedColor::DarkGray.rgb(), (85, 85, 85));
}

#[test]
fn from_code_takes_either_case() {
    assert_eq!(NamedColor::from_code('c'), Some(NamedColor::Red));
    assert_eq!(NamedColor::from_code('C'), Some(NamedColor::Red));
    assert_eq!(NamedColor::from_code('0'), Some(NamedColor::Black));
    assert_eq!(NamedColor::from_code('F'), Some(NamedColor::White));
    assert_eq!(NamedColor::from_code('g'), None);
    assert_eq!(NamedColor::from_code('l'), None);
    assert_eq!(NamedColor::from_index(16), None);
    assert_eq!(NamedColor::from_index(3), Some(NamedColor::DarkAqua));
}

#[test]
fn from_name_finds_each_color() {
    for c in NamedColor::all() {
        assert_eq!(NamedColor::from_name(c.name()), Some(c));
        assert_eq!(NamedColor::from_code(c.code()), Some(c));
    }
    assert_eq!(NamedColor::from_name("Red"), None);
    assert_eq!(NamedColor::from_name(""), None);
    assert_eq!(NamedColor::from_name("orange"), None);
}

#[test]
fn parse_accepts_names_codes_and_hex() {
    assert_eq!(TextColor::parse("red"), Some(TextColor::Named(NamedColor::Red)));
    assert_eq!(TextColor::parse("dark_aqua"), Some(TextColor::Named(NamedColor::DarkAqua)));
    assert_eq!(TextColor::parse("a"), Some(TextColor::Named(NamedColor::Green)));
    assert_eq!(TextColor::parse("7"), Some(TextColor::Named(NamedColor::Gray)));
    assert_eq!(TextColor::parse("#ff5555"), Some(TextColor::Rgb { r: 255, g: 85, b: 85 }));
    assert_eq!(TextColor::parse("#0A1b2C"), Some(TextColor::Rgb { r: 10, g: 27, b: 44 }));
}

#[test]
fn parse_gives_none_for_anything_else() {
    assert_eq!(TextColor::parse(""), None);
    assert_eq!(TextColor::parse("#"), None);
    assert_eq!(TextColor::parse("#ff555"), None);
    assert_eq!(TextColor::parse("#ff55555"), None);
    assert_eq!(TextColor::parse("#gg5555"), None);
    assert_eq!(TextColor::parse("#+f5555"), None);
    assert_eq!(TextColor::parse("ff5555"), None);
    assert_eq!(TextColor::parse("RED"), None);
    assert_eq!(TextColor::parse("g"), None);
    assert_eq!(TextColor::parse("r"), None);
    assert_eq!(TextColor::parse("purple"), None);
    assert_eq!(TextColor::parse(" red"), None);
}

#[test]
fn to_hex_is_lower_case() {
    assert_eq!(TextColor::Rgb { r: 255, g: 170, b: 0 }.to_hex(), "#ffaa00");
    assert_eq!(TextColor::Rgb { r: 0, g: 1, b: 16 }.to_hex(), "#000110");
    assert_eq!(TextColor::Named(NamedColor::Red).to_hex(), "#ff5555");
    assert_eq!(TextColor::Named(NamedColor::Black).to_hex(), "#000000");
}

#[test]
fn hex_round_trips() {
    for r in [0u8, 1, 15, 16, 127, 200, 255] {
        for g in [0u8, 9, 10, 99, 255] {
            let c = TextColor::Rgb { r, g, b: r ^ g };
            assert_eq!(TextColor::parse(&c.to_hex()), Some(c));
            assert_eq!(TextColor::from_hex(&c.to_hex()), Some(c));
        }
    }
}

#[test]
fn label_round_trips() {
    for n in NamedColor::all() {
        let c = TextColor::Named(n);
        assert_eq!(c.label(), n.name());
        assert_eq!(TextColor::parse(&c.label()), Some(c));
    }
    let c = TextColor::Rgb { r: 255, g: 85, b: 85 };
    assert_eq!(c.label(), "#ff5555");
    assert_eq!(TextColor::parse(&c.label()), Some(c));
}

#[test]
fn rgb_of_text_color() {
    assert_eq!(TextColor::Named(NamedColor::Aqua).rgb(), (85, 255, 255));
    assert_eq!(TextColor::Rgb { r: 1, g: 2, b: 3 }.rgb(), (1, 2, 3));
    assert_eq!(TextColor::Named(NamedColor::Aqua).named(), Some(NamedColor::Aqua));
    assert_eq!(TextColor::Rgb { r: 1, g: 2, b: 3 }.named(), None);
    assert_eq!(TextColor::from(NamedColor::Gray), TextColor::Named(NamedColor::Gray));
}

#[test]
fn named_colors_is_the_palette_as_a_table() {
    let table = mctext::named_colors();
    assert_eq!(table.len(), 16);
    for (i, (name, code, rgb)) in table.iter().enumerate() {
        let color = NamedColor::ALL[i];
        assert_eq!(name, color.name());
        assert_eq!(*code, color.code());
        assert_eq!(*rgb, color.rgb());
    }
    assert_eq!(table[0], ("black".to_string(), '0', (0, 0, 0)));
    assert_eq!(table[12], ("red".to_string(), 'c', (255, 85, 85)));
    assert_eq!(table[15], ("white".to_string(), 'f', (255, 255, 255)));
}

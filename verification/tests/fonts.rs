use mctext::{FontAsset, FontFamily, FontSystem, FontVariant, FontVersion, Style};

#[test]
fn from_style_covers_all_four() {
    assert_eq!(FontVariant::from_style(true, true), FontVariant::BoldItalic);
    assert_eq!(FontVariant::from_style(true, false), FontVariant::Bold);
    assert_eq!(FontVariant::from_style(false, true), FontVariant::Italic);
    assert_eq!(FontVariant::from_style(false, false), FontVariant::Regular);
}

#[test]
fn defaults() {
    assert_eq!(FontFamily::default(), FontFamily::Minecraft);
    assert_eq!(FontVersion::default(), FontVersion::Modern);
    assert_eq!(FontVariant::default(), FontVariant::Regular);
    assert_eq!(Style::default(), Style::new());
    assert!(Style::default().is_plain());
}

#[test]
fn data_is_the_modern_face() {
    assert_eq!(FontVariant::Regular.data(), FontAsset::MinecraftRegular);
    assert_eq!(FontVariant::Bold.data(), FontAsset::MinecraftBold);
    assert_eq!(FontVariant::Italic.data(), FontAsset::MinecraftItalic);
    assert_eq!(FontVariant::BoldItalic.data(), FontAsset::MinecraftBoldItalic);
    assert_eq!(FontFamily::Minecraft.data(), FontAsset::MinecraftRegular);
    assert_eq!(FontFamily::Enchanting.data(), FontAsset::EnchantingRegular);
    assert_eq!(FontFamily::Illager.data(), FontAsset::IllagerRegular);
}

#[test]
fn data_for_version_covers_both_versions() {
    let m = FontVersion::Modern;
    let l = FontVersion::Legacy;
    assert_eq!(FontVariant::Regular.data_for_version(m), FontAsset::MinecraftRegular);
    assert_eq!(FontVariant::Bold.data_for_version(m), FontAsset::MinecraftBold);
    assert_eq!(FontVariant::Italic.data_for_version(m), FontAsset::MinecraftItalic);
    assert_eq!(FontVariant::BoldItalic.data_for_version(m), FontAsset::MinecraftBoldItalic);
    assert_eq!(FontVariant::Regular.data_for_version(l), FontAsset::LegacyRegular);
    assert_eq!(FontVariant::Bold.data_for_version(l), FontAsset::LegacyBold);
    assert_eq!(FontVariant::Italic.data_for_version(l), FontAsset::LegacyItalic);
    assert_eq!(FontVariant::BoldItalic.data_for_version(l), FontAsset::LegacyBoldItalic);
}

#[test]
fn only_minecraft_supports_styles() {
    assert!(FontFamily::Minecraft.supports_styles());
    assert!(!FontFamily::Enchanting.supports_styles());
    assert!(!FontFamily::Illager.supports_styles());
}

#[test]
fn special_families_fall_back_to_their_one_face() {
    for variant in [FontVariant::Regular, FontVariant::Bold, FontVariant::Italic, FontVariant::BoldItalic] {
        for version in [FontVersion::Modern, FontVersion::Legacy] {
            assert_eq!(FontFamily::Enchanting.resolve(variant, version), FontAsset::EnchantingRegular);
            assert_eq!(FontFamily::Illager.resolve(variant, version), FontAsset::IllagerRegular);
            assert_eq!(FontFamily::Minecraft.resolve(variant, version), variant.data_for_version(version));
        }
    }
}

#[test]
fn asset_paths() {
    assert_eq!(FontAsset::MinecraftRegular.path(), "modern/minecraft.ttf");
    assert_eq!(FontAsset::MinecraftBoldItalic.path(), "modern/minecraft-bold-italic.ttf");
    assert_eq!(FontAsset::LegacyItalic.path(), "legacy/minecraft-italic.ttf");
    assert_eq!(FontAsset::EnchantingRegular.path(), "modern/enchanting.ttf");
    assert_eq!(FontAsset::IllagerRegular.path(), "modern/illager.ttf");
}

#[test]
fn font_system_holds_six_faces() {
    for version in [FontVersion::Modern, FontVersion::Legacy] {
        let system = FontSystem::new(version);
        assert_eq!(system.version(), version);
        let faces = system.faces();
        assert_eq!(faces.len(), 6);
        for family in [FontFamily::Minecraft, FontFamily::Enchanting, FontFamily::Illager] {
            for variant in [FontVariant::Regular, FontVariant::Bold, FontVariant::Italic, FontVariant::BoldItalic] {
                assert_eq!(faces[FontSystem::slot(family, variant)], family.resolve(variant, version));
            }
            assert_eq!(system.font_for_family(family), family.resolve(FontVariant::Regular, version));
        }
        for i in 0..6 {
            for j in 0..6 {
                if i != j {
                    assert_ne!(faces[i], faces[j]);
                }
            }
        }
    }
    assert_eq!(FontSystem::new(FontVersion::Legacy).font_for(FontVariant::Bold), FontAsset::LegacyBold);
}

#[test]
fn style_selects_variant() {
    let mut s = Style::new();
    assert_eq!(s.variant(), FontVariant::Regular);
    s.bold = true;
    assert_eq!(s.variant(), FontVariant::Bold);
    s.italic = true;
    s.underlined = true;
    assert_eq!(s.variant(), FontVariant::BoldItalic);
    assert!(!s.is_plain());
    assert!(Style::new().within(&s));
    assert!(!s.within(&Style::new()));
}

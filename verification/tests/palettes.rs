use nv_core::palettes::{palette, Palette, ThemeId, Variant};

const ALL_THEMES: [ThemeId; 4] = [
    ThemeId::Catppuccin,
    ThemeId::Dracula,
    ThemeId::Flexoki,
    ThemeId::Wallpaper,
];
const BOTH_VARIANTS: [Variant; 2] = [Variant::Light, Variant::Dark];

fn slots(p: &Palette) -> [(&str, &str); 22] {
    [
        ("base", p.base.as_str()),
        ("mantle", p.mantle.as_str()),
        ("crust", p.crust.as_str()),
        ("surface0", p.surface0.as_str()),
        ("surface1", p.surface1.as_str()),
        ("surface2", p.surface2.as_str()),
        ("overlay0", p.overlay0.as_str()),
        ("overlay1", p.overlay1.as_str()),
        ("overlay2", p.overlay2.as_str()),
        ("subtext0", p.subtext0.as_str()),
        ("subtext1", p.subtext1.as_str()),
        ("text", p.text.as_str()),
        ("lavender", p.lavender.as_str()),
        ("blue", p.blue.as_str()),
        ("mauve", p.mauve.as_str()),
        ("red", p.red.as_str()),
        ("green", p.green.as_str()),
        ("yellow", p.yellow.as_str()),
        ("teal", p.teal.as_str()),
        ("sky", p.sky.as_str()),
        ("pink", p.pink.as_str()),
        ("peach", p.peach.as_str()),
    ]
}

fn is_lowercase_hex(s: &str) -> bool {
    let bytes = s.as_bytes();
    bytes.len() == 7
        && bytes[0] == b'#'
        && bytes[1..]
            .iter()
            .all(|b| matches!(b, b'0'..=b'9' | b'a'..=b'f'))
}

/// WCAG 2.x relative luminance for an `#rrggbb` color.
fn relative_luminance(hex: &str) -> f64 {
    fn channel(byte: u8) -> f64 {
        let c = f64::from(byte) / 255.0;
        if c <= 0.039_28 {
            c / 12.92
        } else {
            ((c + 0.055) / 1.055).powf(2.4)
        }
    }
    let component = |i: usize| {
        u8::from_str_radix(&hex[i..i + 2], 16)
            .unwrap_or_else(|_| panic!("invalid hex component in {hex} at byte {i}"))
    };
    let r = channel(component(1));
    let g = channel(component(3));
    let b = channel(component(5));
    0.2126 * r + 0.7152 * g + 0.0722 * b
}

fn contrast_ratio(a: &str, b: &str) -> f64 {
    let (la, lb) = (relative_luminance(a), relative_luminance(b));
    let (lighter, darker) = if la >= lb { (la, lb) } else { (lb, la) };
    (lighter + 0.05) / (darker + 0.05)
}

#[test]
fn every_theme_defines_every_slot_in_both_variants() {
    for theme in ALL_THEMES {
        for variant in BOTH_VARIANTS {
            let p = palette(theme, variant);
            let defined = slots(&p);
            assert_eq!(defined.len(), 22);
            for (name, value) in defined {
                assert!(
                    !value.is_empty(),
                    "{} {variant:?}: slot {name} is empty",
                    theme.as_str()
                );
            }
        }
    }
}

#[test]
fn every_slot_is_lowercase_rrggbb() {
    for theme in ALL_THEMES {
        for variant in BOTH_VARIANTS {
            let p = palette(theme, variant);
            for (name, value) in slots(&p) {
                assert!(
                    is_lowercase_hex(value),
                    "{} {variant:?}: slot {name} = {value} is not lowercase #rrggbb",
                    theme.as_str()
                );
            }
        }
    }
}

#[test]
fn text_base_contrast_meets_wcag_aa() {
    for theme in [ThemeId::Catppuccin, ThemeId::Dracula, ThemeId::Flexoki] {
        for variant in BOTH_VARIANTS {
            let p = palette(theme, variant);
            let ratio = contrast_ratio(&p.text, &p.base);
            assert!(
                ratio >= 4.5,
                "{} {variant:?}: text/base contrast {ratio:.2} is below the 4.5:1 WCAG AA bar",
                theme.as_str()
            );
        }
    }
}

#[test]
fn theme_id_round_trips_and_rejects_garbage() {
    for theme in ALL_THEMES {
        assert_eq!(ThemeId::parse(theme.as_str()), Some(theme));
    }
    assert_eq!(ThemeId::parse("Catppuccin"), None);
    assert_eq!(ThemeId::parse("solarized"), None);
    assert_eq!(ThemeId::parse(""), None);
    assert_eq!(ThemeId::parse("dracula "), None);
}

#[test]
fn wallpaper_resolves_to_catppuccin_fallback() {
    for variant in BOTH_VARIANTS {
        let wallpaper = palette(ThemeId::Wallpaper, variant);
        let catppuccin = palette(ThemeId::Catppuccin, variant);
        for ((name, a), (_, b)) in slots(&wallpaper).iter().zip(slots(&catppuccin)) {
            assert_eq!(a, &b, "wallpaper slot {name} diverged from the Catppuccin fallback");
        }
    }
}

#[test]
fn display_names_are_non_empty_and_distinct() {
    let names: Vec<&str> = ALL_THEMES.iter().map(|theme| theme.display_name()).collect();
    for name in &names {
        assert!(!name.is_empty(), "display name must not be empty");
    }
    for (i, a) in names.iter().enumerate() {
        for b in &names[i + 1..] {
            assert_ne!(a, b, "display names must be pairwise distinct");
        }
    }
}

#[test]
fn from_persisted_maps_valid_ids_and_falls_back_to_catppuccin() {
    for theme in ALL_THEMES {
        assert_eq!(ThemeId::from_persisted(theme.as_str()), theme);
    }
    for garbage in ["", "solarized", "Catppuccin", "dracula "] {
        assert_eq!(
            ThemeId::from_persisted(garbage),
            ThemeId::Catppuccin,
            "from_persisted({garbage:?}) must fall back to Catppuccin"
        );
    }
}

#[test]
fn catppuccin_latte_values_are_the_stylesheet_ones() {
    let p = palette(ThemeId::Catppuccin, Variant::Light);
    assert_eq!(p.base, "#eff1f5");
    assert_eq!(p.text, "#4c4f69");
    assert_eq!(p.peach, "#fe640b");
    let d = palette(ThemeId::Dracula, Variant::Dark);
    assert_eq!(d.sky, "#8be9fd");
    assert_eq!(d.mauve, "#bd93f9");
    let f = palette(ThemeId::Flexoki, Variant::Light);
    assert_eq!(f.subtext1, "#31302e");
    assert_eq!(ThemeId::Wallpaper.display_name(), "Papel tapiz");
}

use nv_core::palettes::{palette, ThemeId, Variant};
use nv_core::theme::{build_css, render_block, DARK_BLOCK, LIGHT_BLOCK};

const ALL_THEMES: [ThemeId; 4] = [
    ThemeId::Catppuccin,
    ThemeId::Dracula,
    ThemeId::Flexoki,
    ThemeId::Wallpaper,
];

#[test]
fn generated_css_defines_both_variants_with_every_name() {
    for theme in ALL_THEMES {
        let css = build_css(theme);
        assert!(
            css.contains("@media (prefers-color-scheme: light)"),
            "{}: light media block missing",
            theme.as_str()
        );
        assert!(
            css.contains("@media (prefers-color-scheme: dark)"),
            "{}: dark media block missing",
            theme.as_str()
        );
        assert!(css.contains("@define-color theme_base_color @base;"));
        assert!(css.contains("@define-color borders @surface1;"));
        assert!(!css.contains("%%"), "{}: template token left unsubstituted", theme.as_str());
        assert_eq!(
            css.matches("@define-color").count(),
            2 * 61,
            "{}: unexpected named-color count",
            theme.as_str()
        );
    }
}

#[test]
fn catppuccin_css_keeps_latte_and_mocha_bases() {
    let css = build_css(ThemeId::Catppuccin);
    assert!(css.contains("#eff1f5"), "Latte base missing");
    assert!(css.contains("#1e1e2e"), "Mocha base missing");
}

#[test]
fn render_block_replaces_each_token_with_its_slot() {
    let p = palette(ThemeId::Dracula, Variant::Dark);
    let out = render_block("a %%BASE%% b %%PEACH%% %%BASE%% %%UNKNOWN%%", &p);
    assert_eq!(out, "a #282a36 b #ffb86c #282a36 %%UNKNOWN%%");
    let light = render_block(LIGHT_BLOCK, &palette(ThemeId::Flexoki, Variant::Light));
    assert!(light.contains("@define-color base       #fffcf0;"));
    assert!(light.contains("@define-color subtext1   #31302e;"));
    let expected = format!(
        "{}\n{}",
        render_block(LIGHT_BLOCK, &palette(ThemeId::Flexoki, Variant::Light)),
        render_block(DARK_BLOCK, &palette(ThemeId::Flexoki, Variant::Dark))
    );
    assert_eq!(build_css(ThemeId::Flexoki), expected);
}

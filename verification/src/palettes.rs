//! The desktop color palettes: which themes exist, how their ids are stored
//! and shown, and the 22 colors of each theme in its light and dark variant.
use vstd::prelude::*;
use crate::text::{chars_of, hex_color, hex_text, is_lower_hex_color, lemma_hex_text_is_color, same_chars};

verus! {

/// A user-selectable desktop palette.
#[derive(Debug, Clone, Copy, PartialEq, Eq, Structural)]
pub enum ThemeId {
    Catppuccin,
    Dracula,
    Flexoki,
    Wallpaper,
}

/// The light or dark rendering of a palette.
#[derive(Debug, Clone, Copy, PartialEq, Eq, Structural)]
pub enum Variant {
    Light,
    Dark,
}

/// The stored identifier of a theme.
pub open spec fn theme_id_text(t: ThemeId) -> Seq<char> {
    match t {
        ThemeId::Catppuccin => seq!['c', 'a', 't', 'p', 'p', 'u', 'c', 'c', 'i', 'n'],
        ThemeId::Dracula => seq!['d', 'r', 'a', 'c', 'u', 'l', 'a'],
        ThemeId::Flexoki => seq!['f', 'l', 'e', 'x', 'o', 'k', 'i'],
        ThemeId::Wallpaper => seq!['w', 'a', 'l', 'l', 'p', 'a', 'p', 'e', 'r'],
    }
}

/// The name of a theme in the theme picker.
pub open spec fn theme_display_text(t: ThemeId) -> Seq<char> {
    match t {
        ThemeId::Catppuccin => seq!['C', 'a', 't', 'p', 'p', 'u', 'c', 'c', 'i', 'n'],
        ThemeId::Dracula => seq!['D', 'r', 'a', 'c', 'u', 'l', 'a'],
        ThemeId::Flexoki => seq!['F', 'l', 'e', 'x', 'o', 'k', 'i'],
        ThemeId::Wallpaper => seq!['P', 'a', 'p', 'e', 'l', ' ', 't', 'a', 'p', 'i', 'z'],
    }
}

/// The theme whose stored identifier is exactly `s`.
pub open spec fn parse_theme(s: Seq<char>) -> Option<ThemeId> {
    if s == theme_id_text(ThemeId::Catppuccin) {
        Some(ThemeId::Catppuccin)
    } else if s == theme_id_text(ThemeId::Dracula) {
        Some(ThemeId::Dracula)
    } else if s == theme_id_text(ThemeId::Flexoki) {
        Some(ThemeId::Flexoki)
    } else if s == theme_id_text(ThemeId::Wallpaper) {
        Some(ThemeId::Wallpaper)
    } else {
        None
    }
}

/// The active theme for a stored identifier: Catppuccin for anything unknown.
pub open spec fn persisted_theme(s: Seq<char>) -> ThemeId {
    match parse_theme(s) {
        Some(t) => t,
        None => ThemeId::Catppuccin,
    }
}

impl ThemeId {
    /// Parses the stored lowercase identifier, or `None` for anything else.
    pub fn parse(s: &str) -> (r: Option<ThemeId>)
        ensures
            r == parse_theme(s@),
    {
        let c = chars_of(s);
        let cat: [char; 10] = ['c', 'a', 't', 'p', 'p', 'u', 'c', 'c', 'i', 'n'];
        let dra: [char; 7] = ['d', 'r', 'a', 'c', 'u', 'l', 'a'];
        let fle: [char; 7] = ['f', 'l', 'e', 'x', 'o', 'k', 'i'];
        let wal: [char; 9] = ['w', 'a', 'l', 'l', 'p', 'a', 'p', 'e', 'r'];
        assert(cat@ =~= theme_id_text(ThemeId::Catppuccin));
        assert(dra@ =~= theme_id_text(ThemeId::Dracula));
        assert(fle@ =~= theme_id_text(ThemeId::Flexoki));
        assert(wal@ =~= theme_id_text(ThemeId::Wallpaper));
        if same_chars(c.as_slice(), &cat) {
            Some(ThemeId::Catppuccin)
        } else if same_chars(c.as_slice(), &dra) {
            Some(ThemeId::Dracula)
        } else if same_chars(c.as_slice(), &fle) {
            Some(ThemeId::Flexoki)
        } else if same_chars(c.as_slice(), &wal) {
            Some(ThemeId::Wallpaper)
        } else {
            None
        }
    }

    /// The stable lowercase identifier used for persistence.
    pub fn as_str(&self) -> (r: &'static str)
        ensures
            r@ == theme_id_text(*self),
    {
        match self {
            ThemeId::Catppuccin => {
                proof {
                    reveal_strlit("catppuccin");
                }
                "catppuccin"
            },
            ThemeId::Dracula => {
                proof {
                    reveal_strlit("dracula");
                }
                "dracula"
            },
            ThemeId::Flexoki => {
                proof {
                    reveal_strlit("flexoki");
                }
                "flexoki"
            },
            ThemeId::Wallpaper => {
                proof {
                    reveal_strlit("wallpaper");
                }
                "wallpaper"
            },
        }
    }

    /// The label shown in the theme picker: the brand names as they are, the
    /// wallpaper theme in Spanish like the rest of the interface.
    pub fn display_name(&self) -> (r: &'static str)
        ensures
            r@ == theme_display_text(*self),
    {
        match self {
            ThemeId::Catppuccin => {
                proof {
                    reveal_strlit("Catppuccin");
                }
                "Catppuccin"
            },
            ThemeId::Dracula => {
                proof {
                    reveal_strlit("Dracula");
                }
                "Dracula"
            },
            ThemeId::Flexoki => {
                proof {
                    reveal_strlit("Flexoki");
                }
                "Flexoki"
            },
            ThemeId::Wallpaper => {
                proof {
                    reveal_strlit("Papel tapiz");
                }
                "Papel tapiz"
            },
        }
    }

    /// The active theme for a stored identifier, Catppuccin for anything
    /// unknown.
    pub fn from_persisted(s: &str) -> (r: ThemeId)
        ensures
            r == persisted_theme(s@),
    {
        match ThemeId::parse(s) {
            Some(t) => t,
            None => ThemeId::Catppuccin,
        }
    }
}

/// The 22 colors of a palette as `#rrggbb`: the 12 neutrals from `base` to
/// `text`, then the 10 accents.
#[derive(Clone, Debug)]
pub struct Palette {
    pub base: String,
    pub mantle: String,
    pub crust: String,
    pub surface0: String,
    pub surface1: String,
    pub surface2: String,
    pub overlay0: String,
    pub overlay1: String,
    pub overlay2: String,
    pub subtext0: String,
    pub subtext1: String,
    pub text: String,
    pub lavender: String,
    pub blue: String,
    pub mauve: String,
    pub red: String,
    pub green: String,
    pub yellow: String,
    pub teal: String,
    pub sky: String,
    pub pink: String,
    pub peach: String,
}

impl Palette {
    /// The slots in declaration order.
    pub open spec fn slots(&self) -> Seq<Seq<char>> {
        seq![
            self.base@,
            self.mantle@,
            self.crust@,
            self.surface0@,
            self.surface1@,
            self.surface2@,
            self.overlay0@,
            self.overlay1@,
            self.overlay2@,
            self.subtext0@,
            self.subtext1@,
            self.text@,
            self.lavender@,
            self.blue@,
            self.mauve@,
            self.red@,
            self.green@,
            self.yellow@,
            self.teal@,
            self.sky@,
            self.pink@,
            self.peach@,
        ]
    }
}

/// Number of slots of a palette.
pub const SLOT_COUNT: usize = 22;

/// The slots written as `#rrggbb` from `0xRRGGBB` values.
pub open spec fn hex_slots(colors: Seq<u32>) -> Seq<Seq<char>> {
    colors.map_values(|c: u32| hex_text(c))
}

/// Catppuccin Latte (light).
pub open spec fn catppuccin_latte() -> Seq<u32> {
    seq![
        0xeff1f5, 0xe6e9ef, 0xdce0e8, 0xccd0da, 0xbcc0cc, 0xacb0be,
        0x9ca0b0, 0x8c8fa1, 0x7c7f93, 0x6c6f85, 0x5c5f77, 0x4c4f69,
        0x7287fd, 0x1e66f5, 0x8839ef, 0xd20f39, 0x40a02b, 0xdf8e1d,
        0x179299, 0x04a5e5, 0xea76cb, 0xfe640b,
    ]
}

/// Catppuccin Mocha (dark).
pub open spec fn catppuccin_mocha() -> Seq<u32> {
    seq![
        0x1e1e2e, 0x181825, 0x11111b, 0x313244, 0x45475a, 0x585b70,
        0x6c7086, 0x7f849c, 0x9399b2, 0xa6adc8, 0xbac2de, 0xcdd6f4,
        0xb4befe, 0x89b4fa, 0xcba6f7, 0xf38ba8, 0xa6e3a1, 0xf9e2af,
        0x94e2d5, 0x89dceb, 0xf5c2e7, 0xfab387,
    ]
}

/// Dracula (dark). The spec has no elevation ramp: `overlay0..2` and
/// `subtext0..1` blend `base` toward `text` at 0.44/0.55/0.67/0.78/0.89;
/// `blue`/`teal`/`sky` alias cyan and `lavender`/`mauve` alias purple.
pub open spec fn dracula() -> Seq<u32> {
    seq![
        0x282a36, 0x21222c, 0x191a21, 0x343746, 0x424450, 0x44475a,
        0x848589, 0x9a9b9d, 0xb3b4b4, 0xcacbc9, 0xe1e1dd, 0xf8f8f2,
        0xbd93f9, 0x8be9fd, 0xbd93f9, 0xff5555, 0x50fa7b, 0xf1fa8c,
        0x8be9fd, 0x8be9fd, 0xff79c6, 0xffb86c,
    ]
}

/// Alucard (Dracula light), derived as `dracula`.
pub open spec fn alucard() -> Seq<u32> {
    seq![
        0xfffbeb, 0xefeddc, 0xece9df, 0xdedccf, 0xceccc0, 0xbcbab3,
        0x9c9a91, 0x84827b, 0x696862, 0x504f4c, 0x383735, 0x1f1f1f,
        0x644ac9, 0x036a96, 0x644ac9, 0xcb3a2a, 0x14710a, 0x846e15,
        0x036a96, 0x036a96, 0xa3144d, 0xa34d14,
    ]
}

/// Flexoki dark. The base ramp gives `mantle` through `subtext0`;
/// `subtext1` blends `base` toward `text` at 0.86; cyan, purple and magenta
/// stand for `teal`/`sky`, `lavender`/`mauve` and `pink`.
pub open spec fn flexoki_dark() -> Seq<u32> {
    seq![
        0x100f0f, 0x1c1b1a, 0x282726, 0x343331, 0x403e3c, 0x575653,
        0x6f6e69, 0x878580, 0x9f9d96, 0xb7b5ac, 0xd2d0c7, 0xf2f0e5,
        0x5e409d, 0x205ea6, 0x5e409d, 0xaf3029, 0x66800b, 0xad8301,
        0x24837b, 0x24837b, 0xa02f6f, 0xbc5215,
    ]
}

/// Flexoki light, derived as `flexoki_dark`.
pub open spec fn flexoki_light() -> Seq<u32> {
    seq![
        0xfffcf0, 0xf2f0e5, 0xe6e4d9, 0xdad8ce, 0xcecdc3, 0xb7b5ac,
        0x9f9d96, 0x878580, 0x6f6e69, 0x575653, 0x31302e, 0x100f0f,
        0x8b7ec8, 0x4385be, 0x8b7ec8, 0xd14d41, 0x879a39, 0xd0a215,
        0x3aa99f, 0x3aa99f, 0xce5d97, 0xda702c,
    ]
}

fn catppuccin_latte_table() -> (r: [u32; 22])
    ensures
        r@ == catppuccin_latte(),
{
    let r: [u32; 22] = [
        0xeff1f5, 0xe6e9ef, 0xdce0e8, 0xccd0da, 0xbcc0cc, 0xacb0be,
        0x9ca0b0, 0x8c8fa1, 0x7c7f93, 0x6c6f85, 0x5c5f77, 0x4c4f69,
        0x7287fd, 0x1e66f5, 0x8839ef, 0xd20f39, 0x40a02b, 0xdf8e1d,
        0x179299, 0x04a5e5, 0xea76cb, 0xfe640b,
    ];
    assert(r@ =~= catppuccin_latte());
    r
}

fn catppuccin_mocha_table() -> (r: [u32; 22])
    ensures
        r@ == catppuccin_mocha(),
{
    let r: [u32; 22] = [
        0x1e1e2e, 0x181825, 0x11111b, 0x313244, 0x45475a, 0x585b70,
        0x6c7086, 0x7f849c, 0x9399b2, 0xa6adc8, 0xbac2de, 0xcdd6f4,
        0xb4befe, 0x89b4fa, 0xcba6f7, 0xf38ba8, 0xa6e3a1, 0xf9e2af,
        0x94e2d5, 0x89dceb, 0xf5c2e7, 0xfab387,
    ];
    assert(r@ =~= catppuccin_mocha());
    r
}

fn dracula_table() -> (r: [u32; 22])
    ensures
        r@ == dracula(),
{
    let r: [u32; 22] = [
        0x282a36, 0x21222c, 0x191a21, 0x343746, 0x424450, 0x44475a,
        0x848589, 0x9a9b9d, 0xb3b4b4, 0xcacbc9, 0xe1e1dd, 0xf8f8f2,
        0xbd93f9, 0x8be9fd, 0xbd93f9, 0xff5555, 0x50fa7b, 0xf1fa8c,
        0x8be9fd, 0x8be9fd, 0xff79c6, 0xffb86c,
    ];
    assert(r@ =~= dracula());
    r
}

fn alucard_table() -> (r: [u32; 22])
    ensures
        r@ == alucard(),
{
    let r: [u32; 22] = [
        0xfffbeb, 0xefeddc, 0xece9df, 0xdedccf, 0xceccc0, 0xbcbab3,
        0x9c9a91, 0x84827b, 0x696862, 0x504f4c, 0x383735, 0x1f1f1f,
        0x644ac9, 0x036a96, 0x644ac9, 0xcb3a2a, 0x14710a, 0x846e15,
        0x036a96, 0x036a96, 0xa3144d, 0xa34d14,
    ];
    assert(r@ =~= alucard());
    r
}

fn flexoki_dark_table() -> (r: [u32; 22])
    ensures
        r@ == flexoki_dark(),
{
    let r: [u32; 22] = [
        0x100f0f, 0x1c1b1a, 0x282726, 0x343331, 0x403e3c, 0x575653,
        0x6f6e69, 0x878580, 0x9f9d96, 0xb7b5ac, 0xd2d0c7, 0xf2f0e5,
        0x5e409d, 0x205ea6, 0x5e409d, 0xaf3029, 0x66800b, 0xad8301,
        0x24837b, 0x24837b, 0xa02f6f, 0xbc5215,
    ];
    assert(r@ =~= flexoki_dark());
    r
}

fn flexoki_light_table() -> (r: [u32; 22])
    ensures
        r@ == flexoki_light(),
{
    let r: [u32; 22] = [
        0xfffcf0, 0xf2f0e5, 0xe6e4d9, 0xdad8ce, 0xcecdc3, 0xb7b5ac,
        0x9f9d96, 0x878580, 0x6f6e69, 0x575653, 0x31302e, 0x100f0f,
        0x8b7ec8, 0x4385be, 0x8b7ec8, 0xd14d41, 0x879a39, 0xd0a215,
        0x3aa99f, 0x3aa99f, 0xce5d97, 0xda702c,
    ];
    assert(r@ =~= flexoki_light());
    r
}

/// The colors of `theme` in `variant`. The wallpaper theme uses the
/// Catppuccin colors: the wallpaper's own colors come from pywal's output,
/// read elsewhere.
pub open spec fn palette_colors(theme: ThemeId, variant: Variant) -> Seq<u32> {
    match (theme, variant) {
        (ThemeId::Catppuccin, Variant::Light) => catppuccin_latte(),
        (ThemeId::Catppuccin, Variant::Dark) => catppuccin_mocha(),
        (ThemeId::Wallpaper, Variant::Light) => catppuccin_latte(),
        (ThemeId::Wallpaper, Variant::Dark) => catppuccin_mocha(),
        (ThemeId::Dracula, Variant::Light) => alucard(),
        (ThemeId::Dracula, Variant::Dark) => dracula(),
        (ThemeId::Flexoki, Variant::Light) => flexoki_light(),
        (ThemeId::Flexoki, Variant::Dark) => flexoki_dark(),
    }
}

/// A palette from 22 `0xRRGGBB` colors in slot order.
fn palette_from_rgb(c: &[u32; 22]) -> (p: Palette)
    ensures
        p.slots() == hex_slots(c@),
{
    let p = Palette {
        base: hex_color(c[0]),
        mantle: hex_color(c[1]),
        crust: hex_color(c[2]),
        surface0: hex_color(c[3]),
        surface1: hex_color(c[4]),
        surface2: hex_color(c[5]),
        overlay0: hex_color(c[6]),
        overlay1: hex_color(c[7]),
        overlay2: hex_color(c[8]),
        subtext0: hex_color(c[9]),
        subtext1: hex_color(c[10]),
        text: hex_color(c[11]),
        lavender: hex_color(c[12]),
        blue: hex_color(c[13]),
        mauve: hex_color(c[14]),
        red: hex_color(c[15]),
        green: hex_color(c[16]),
        yellow: hex_color(c[17]),
        teal: hex_color(c[18]),
        sky: hex_color(c[19]),
        pink: hex_color(c[20]),
        peach: hex_color(c[21]),
    };
    assert(p.slots() =~= hex_slots(c@));
    p
}

/// The palette of `theme` in `variant`.
pub fn palette(theme: ThemeId, variant: Variant) -> (p: Palette)
    ensures
        p.slots() == hex_slots(palette_colors(theme, variant)),
{
    let colors = match (theme, variant) {
        (ThemeId::Catppuccin, Variant::Light) => catppuccin_latte_table(),
        (ThemeId::Catppuccin, Variant::Dark) => catppuccin_mocha_table(),
        (ThemeId::Wallpaper, Variant::Light) => catppuccin_latte_table(),
        (ThemeId::Wallpaper, Variant::Dark) => catppuccin_mocha_table(),
        (ThemeId::Dracula, Variant::Light) => alucard_table(),
        (ThemeId::Dracula, Variant::Dark) => dracula_table(),
        (ThemeId::Flexoki, Variant::Light) => flexoki_light_table(),
        (ThemeId::Flexoki, Variant::Dark) => flexoki_dark_table(),
    };
    palette_from_rgb(&colors)
}

/// Every theme id is read back as the same theme.
pub proof fn lemma_parse_as_str(t: ThemeId)
    ensures
        parse_theme(theme_id_text(t)) == Some(t),
        persisted_theme(theme_id_text(t)) == t,
{
    reveal_with_fuel(parse_theme, 1);
}

/// Only the four ids are read as themes: whatever else is stored, the
/// active theme is Catppuccin.
pub proof fn lemma_parse_only_ids(s: Seq<char>)
    ensures
        parse_theme(s) matches Some(t) ==> s == theme_id_text(t),
        (forall|t: ThemeId| s != #[trigger] theme_id_text(t)) ==> parse_theme(s) is None
            && persisted_theme(s) == ThemeId::Catppuccin,
{
    if parse_theme(s) is None {
    } else {
    }
    assert((forall|t: ThemeId| s != #[trigger] theme_id_text(t)) ==> s != theme_id_text(
        ThemeId::Catppuccin,
    ) && s != theme_id_text(ThemeId::Dracula) && s != theme_id_text(ThemeId::Flexoki) && s
        != theme_id_text(ThemeId::Wallpaper));
}

/// The picker's labels are not empty and name each theme differently.
pub proof fn lemma_display_names_distinct(a: ThemeId, b: ThemeId)
    ensures
        theme_display_text(a).len() > 0,
        a != b ==> theme_display_text(a) != theme_display_text(b),
{
    if a != b && theme_display_text(a) == theme_display_text(b) {
        let x = theme_display_text(a);
        let y = theme_display_text(b);
        assert(x.len() == y.len());
        assert(x[0] == y[0]);
    }
}

/// The wallpaper theme shows the Catppuccin colors in both variants.
pub proof fn lemma_wallpaper_is_catppuccin(variant: Variant)
    ensures
        palette_colors(ThemeId::Wallpaper, variant) == palette_colors(ThemeId::Catppuccin, variant),
{
}

/// Every slot of every palette is a lowercase `#rrggbb`, and there are 22.
pub proof fn lemma_palette_slots_are_colors(theme: ThemeId, variant: Variant)
    ensures
        hex_slots(palette_colors(theme, variant)).len() == SLOT_COUNT,
        forall|i: int|
            0 <= i < SLOT_COUNT ==> is_lower_hex_color(
                #[trigger] hex_slots(palette_colors(theme, variant))[i],
            ),
{
    let c = palette_colors(theme, variant);
    assert(c.len() == 22);
    assert forall|i: int| 0 <= i < SLOT_COUNT implies is_lower_hex_color(
        #[trigger] hex_slots(c)[i],
    ) by {
        lemma_hex_text_is_color(c[i]);
    }
}

/// How bright a `0xRRGGBB` color is: the sum of its three channels.
pub open spec fn brightness(rgb: u32) -> int {
    (rgb / 0x10000) as int + ((rgb / 0x100) % 0x100) as int + (rgb % 0x100) as int
}

/// The light variant is light and the dark one dark: in the light palette
/// the background (`base`, slot 0) is brighter than the text (`text`, slot
/// 11), in the dark palette it is darker, and the light background is
/// brighter than the dark one, the dark text brighter than the light one.
pub proof fn lemma_light_and_dark_variants(theme: ThemeId)
    ensures
        brightness(palette_colors(theme, Variant::Light)[0]) > brightness(
            palette_colors(theme, Variant::Light)[11],
        ),
        brightness(palette_colors(theme, Variant::Dark)[0]) < brightness(
            palette_colors(theme, Variant::Dark)[11],
        ),
        brightness(palette_colors(theme, Variant::Light)[0]) > brightness(
            palette_colors(theme, Variant::Dark)[0],
        ),
        brightness(palette_colors(theme, Variant::Dark)[11]) > brightness(
            palette_colors(theme, Variant::Light)[11],
        ),
{
}

/// Themes look different: two themes, other than the wallpaper theme and
/// its Catppuccin fallback, never share a background in either variant.
pub proof fn lemma_themes_have_own_backgrounds(a: ThemeId, b: ThemeId, variant: Variant)
    requires
        a != b,
        !((a == ThemeId::Catppuccin || a == ThemeId::Wallpaper) && (b == ThemeId::Catppuccin || b
            == ThemeId::Wallpaper)),
    ensures
        palette_colors(a, variant)[0] != palette_colors(b, variant)[0],
{
}

/// The red channel of a `0xRRGGBB` color.
pub open spec fn red_of(rgb: u32) -> int {
    (rgb / 0x10000) as int
}

/// The green channel of a `0xRRGGBB` color.
pub open spec fn green_of(rgb: u32) -> int {
    ((rgb / 0x100) % 0x100) as int
}

/// The blue channel of a `0xRRGGBB` color.
pub open spec fn blue_of(rgb: u32) -> int {
    (rgb % 0x100) as int
}

/// The accents are the colors they are named after, in every theme and
/// variant: in `red` (slot 15) red is the strongest channel, in `green`
/// (slot 16) green, in `blue` (slot 13) blue, and in `yellow` (slot 17)
/// red and green both outweigh blue.
pub proof fn lemma_accents_have_their_hues(theme: ThemeId, variant: Variant)
    ensures
        red_of(palette_colors(theme, variant)[15]) > green_of(palette_colors(theme, variant)[15]),
        red_of(palette_colors(theme, variant)[15]) > blue_of(palette_colors(theme, variant)[15]),
        green_of(palette_colors(theme, variant)[16]) > red_of(palette_colors(theme, variant)[16]),
        green_of(palette_colors(theme, variant)[16]) > blue_of(palette_colors(theme, variant)[16]),
        blue_of(palette_colors(theme, variant)[13]) > red_of(palette_colors(theme, variant)[13]),
        blue_of(palette_colors(theme, variant)[13]) > green_of(palette_colors(theme, variant)[13]),
        red_of(palette_colors(theme, variant)[17]) > blue_of(palette_colors(theme, variant)[17]),
        green_of(palette_colors(theme, variant)[17]) > blue_of(palette_colors(theme, variant)[17]),
{
}

} // verus!

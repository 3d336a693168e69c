//! The desktop stylesheet: two CSS templates, one per color scheme, whose
//! `%%NAME%%` placeholders are replaced with a palette's colors.
use vstd::prelude::*;
use crate::palettes::{hex_slots, palette, palette_colors, Palette, ThemeId, Variant};
use crate::text::{
    chars_of, find_from, find_from_exec, lemma_find_from_none, lemma_find_from_some, occurs_at, string_of,
};

verus! {

/// Stylesheet template for the light variant: libadwaita's named colors
/// defined from the palette slots, inside `@media (prefers-color-scheme:
/// light)`.
pub const LIGHT_BLOCK: &'static str = r#"
/* NV-GTK desktop theme.
 * The palette is generated from the selected ThemeId; this block carries its
 * light variant. The active variant follows the OS color scheme automatically.
 */

@media (prefers-color-scheme: light) {
    /* ---------- Palette ---------- */
    @define-color base       %%BASE%%;
    @define-color mantle     %%MANTLE%%;
    @define-color crust      %%CRUST%%;
    @define-color surface0   %%SURFACE0%%;
    @define-color surface1   %%SURFACE1%%;
    @define-color surface2   %%SURFACE2%%;
    @define-color overlay0   %%OVERLAY0%%;
    @define-color overlay1   %%OVERLAY1%%;
    @define-color overlay2   %%OVERLAY2%%;
    @define-color subtext0   %%SUBTEXT0%%;
    @define-color subtext1   %%SUBTEXT1%%;
    @define-color text       %%TEXT%%;
    @define-color lavender   %%LAVENDER%%;
    @define-color blue       %%BLUE%%;
    @define-color mauve      %%MAUVE%%;
    @define-color red        %%RED%%;
    @define-color green      %%GREEN%%;
    @define-color yellow     %%YELLOW%%;
    @define-color teal       %%TEAL%%;
    @define-color sky        %%SKY%%;
    @define-color pink       %%PINK%%;
    @define-color peach      %%PEACH%%;

    /* ---------- Window & views ---------- */
    @define-color window_bg_color @base;
    @define-color window_fg_color @text;
    @define-color view_bg_color @base;
    @define-color view_fg_color @text;
    @define-color text_view_bg_color @view_bg_color;
    @define-color text_view_fg_color @view_fg_color;

    /* ---------- Header bar & sidebar ---------- */
    @define-color headerbar_bg_color @mantle;
    @define-color headerbar_fg_color @text;
    @define-color headerbar_shade_color alpha(@surface1, 0.36);
    @define-color headerbar_border_color @surface1;
    @define-color sidebar_bg_color @mantle;
    @define-color sidebar_fg_color @text;
    @define-color sidebar_border_color @surface1;

    /* ---------- Cards, popovers & OSD ---------- */
    @define-color card_bg_color @surface0;
    @define-color card_fg_color @text;
    @define-color card_shade_color @base;
    @define-color popover_bg_color @surface0;
    @define-color popover_fg_color @text;
    @define-color osd_bg_color @surface0;
    @define-color osd_fg_color @text;

    /* ---------- Borders ---------- */
    @define-color borders @surface1;

    /* ---------- Accent & status ---------- */
    @define-color accent_bg_color @mauve;
    @define-color accent_fg_color @base;
    @define-color accent_color @mauve;
    @define-color destructive_bg_color @red;
    @define-color destructive_fg_color @base;
    @define-color error_color @red;
    @define-color success_bg_color @green;
    @define-color success_fg_color @base;
    @define-color warning_bg_color @yellow;
    @define-color warning_fg_color @base;

    /* ---------- Disabled state ---------- */
    @define-color insensitive_fg_color @overlay1;
    @define-color insensitive_bg_color @mantle;

    /* ---------- Legacy GTK aliases (used by custom CSS) ---------- */
    @define-color theme_base_color @base;
    @define-color theme_bg_color @base;
    @define-color theme_fg_color @text;
    @define-color theme_text_color @text;
    @define-color theme_selected_bg_color @accent_bg_color;
    @define-color theme_selected_fg_color @accent_fg_color;
}
"#;

/// Stylesheet template for the dark variant, structurally identical to
/// `LIGHT_BLOCK`.
pub const DARK_BLOCK: &'static str = r#"
/* NV-GTK desktop theme.
 * The palette is generated from the selected ThemeId; this block carries its
 * dark variant. The active variant follows the OS color scheme automatically.
 */

@media (prefers-color-scheme: dark) {
    /* ---------- Palette ---------- */
    @define-color base       %%BASE%%;
    @define-color mantle     %%MANTLE%%;
    @define-color crust      %%CRUST%%;
    @define-color surface0   %%SURFACE0%%;
    @define-color surface1   %%SURFACE1%%;
    @define-color surface2   %%SURFACE2%%;
    @define-color overlay0   %%OVERLAY0%%;
    @define-color overlay1   %%OVERLAY1%%;
    @define-color overlay2   %%OVERLAY2%%;
    @define-color subtext0   %%SUBTEXT0%%;
    @define-color subtext1   %%SUBTEXT1%%;
    @define-color text       %%TEXT%%;
    @define-color lavender   %%LAVENDER%%;
    @define-color blue       %%BLUE%%;
    @define-color mauve      %%MAUVE%%;
    @define-color red        %%RED%%;
    @define-color green      %%GREEN%%;
    @define-color yellow     %%YELLOW%%;
    @define-color teal       %%TEAL%%;
    @define-color sky        %%SKY%%;
    @define-color pink       %%PINK%%;
    @define-color peach      %%PEACH%%;

    /* ---------- Window & views ---------- */
    @define-color window_bg_color @base;
    @define-color window_fg_color @text;
    @define-color view_bg_color @base;
    @define-color view_fg_color @text;
    @define-color text_view_bg_color @view_bg_color;
    @define-color text_view_fg_color @view_fg_color;

    /* ---------- Header bar & sidebar ---------- */
    @define-color headerbar_bg_color @mantle;
    @define-color headerbar_fg_color @text;
    @define-color headerbar_shade_color alpha(@surface1, 0.36);
    @define-color headerbar_border_color @surface1;
    @define-color sidebar_bg_color @mantle;
    @define-color sidebar_fg_color @text;
    @define-color sidebar_border_color @surface1;

    /* ---------- Cards, popovers & OSD ---------- */
    @define-color card_bg_color @surface0;
    @define-color card_fg_color @text;
    @define-color card_shade_color @base;
    @define-color popover_bg_color @surface0;
    @define-color popover_fg_color @text;
    @define-color osd_bg_color @surface0;
    @define-color osd_fg_color @text;

    /* ---------- Borders ---------- */
    @define-color borders @surface1;

    /* ---------- Accent & status ---------- */
    @define-color accent_bg_color @mauve;
    @define-color accent_fg_color @base;
    @define-color accent_color @mauve;
    @define-color destructive_bg_color @red;
    @define-color destructive_fg_color @base;
    @define-color error_color @red;
    @define-color success_bg_color @green;
    @define-color success_fg_color @base;
    @define-color warning_bg_color @yellow;
    @define-color warning_fg_color @base;

    /* ---------- Disabled state ---------- */
    @define-color insensitive_fg_color @overlay1;
    @define-color insensitive_bg_color @mantle;

    /* ---------- Legacy GTK aliases (used by custom CSS) ---------- */
    @define-color theme_base_color @base;
    @define-color theme_bg_color @base;
    @define-color theme_fg_color @text;
    @define-color theme_text_color @text;
    @define-color theme_selected_bg_color @accent_bg_color;
    @define-color theme_selected_fg_color @accent_fg_color;
}
"#;

/// The placeholder of each slot in the stylesheet templates, in slot order.
pub open spec fn slot_tokens() -> Seq<Seq<char>> {
    seq![
        seq!['%', '%', 'B', 'A', 'S', 'E', '%', '%'],
        seq!['%', '%', 'M', 'A', 'N', 'T', 'L', 'E', '%', '%'],
        seq!['%', '%', 'C', 'R', 'U', 'S', 'T', '%', '%'],
        seq!['%', '%', 'S', 'U', 'R', 'F', 'A', 'C', 'E', '0', '%', '%'],
        seq!['%', '%', 'S', 'U', 'R', 'F', 'A', 'C', 'E', '1', '%', '%'],
        seq!['%', '%', 'S', 'U', 'R', 'F', 'A', 'C', 'E', '2', '%', '%'],
        seq!['%', '%', 'O', 'V', 'E', 'R', 'L', 'A', 'Y', '0', '%', '%'],
        seq!['%', '%', 'O', 'V', 'E', 'R', 'L', 'A', 'Y', '1', '%', '%'],
        seq!['%', '%', 'O', 'V', 'E', 'R', 'L', 'A', 'Y', '2', '%', '%'],
        seq!['%', '%', 'S', 'U', 'B', 'T', 'E', 'X', 'T', '0', '%', '%'],
        seq!['%', '%', 'S', 'U', 'B', 'T', 'E', 'X', 'T', '1', '%', '%'],
        seq!['%', '%', 'T', 'E', 'X', 'T', '%', '%'],
        seq!['%', '%', 'L', 'A', 'V', 'E', 'N', 'D', 'E', 'R', '%', '%'],
        seq!['%', '%', 'B', 'L', 'U', 'E', '%', '%'],
        seq!['%', '%', 'M', 'A', 'U', 'V', 'E', '%', '%'],
        seq!['%', '%', 'R', 'E', 'D', '%', '%'],
        seq!['%', '%', 'G', 'R', 'E', 'E', 'N', '%', '%'],
        seq!['%', '%', 'Y', 'E', 'L', 'L', 'O', 'W', '%', '%'],
        seq!['%', '%', 'T', 'E', 'A', 'L', '%', '%'],
        seq!['%', '%', 'S', 'K', 'Y', '%', '%'],
        seq!['%', '%', 'P', 'I', 'N', 'K', '%', '%'],
        seq!['%', '%', 'P', 'E', 'A', 'C', 'H', '%', '%'],
    ]
}

/// The placeholder of slot `k`.
fn slot_token(k: usize) -> (r: Vec<char>)
    requires
        k < 22,
    ensures
        r@ == slot_tokens()[k as int],
{
    let t: &[char] = match k {
        0 => &['%', '%', 'B', 'A', 'S', 'E', '%', '%'],
        1 => &['%', '%', 'M', 'A', 'N', 'T', 'L', 'E', '%', '%'],
        2 => &['%', '%', 'C', 'R', 'U', 'S', 'T', '%', '%'],
        3 => &['%', '%', 'S', 'U', 'R', 'F', 'A', 'C', 'E', '0', '%', '%'],
        4 => &['%', '%', 'S', 'U', 'R', 'F', 'A', 'C', 'E', '1', '%', '%'],
        5 => &['%', '%', 'S', 'U', 'R', 'F', 'A', 'C', 'E', '2', '%', '%'],
        6 => &['%', '%', 'O', 'V', 'E', 'R', 'L', 'A', 'Y', '0', '%', '%'],
        7 => &['%', '%', 'O', 'V', 'E', 'R', 'L', 'A', 'Y', '1', '%', '%'],
        8 => &['%', '%', 'O', 'V', 'E', 'R', 'L', 'A', 'Y', '2', '%', '%'],
        9 => &['%', '%', 'S', 'U', 'B', 'T', 'E', 'X', 'T', '0', '%', '%'],
        10 => &['%', '%', 'S', 'U', 'B', 'T', 'E', 'X', 'T', '1', '%', '%'],
        11 => &['%', '%', 'T', 'E', 'X', 'T', '%', '%'],
        12 => &['%', '%', 'L', 'A', 'V', 'E', 'N', 'D', 'E', 'R', '%', '%'],
        13 => &['%', '%', 'B', 'L', 'U', 'E', '%', '%'],
        14 => &['%', '%', 'M', 'A', 'U', 'V', 'E', '%', '%'],
        15 => &['%', '%', 'R', 'E', 'D', '%', '%'],
        16 => &['%', '%', 'G', 'R', 'E', 'E', 'N', '%', '%'],
        17 => &['%', '%', 'Y', 'E', 'L', 'L', 'O', 'W', '%', '%'],
        18 => &['%', '%', 'T', 'E', 'A', 'L', '%', '%'],
        19 => &['%', '%', 'S', 'K', 'Y', '%', '%'],
        20 => &['%', '%', 'P', 'I', 'N', 'K', '%', '%'],
        _ => &['%', '%', 'P', 'E', 'A', 'C', 'H', '%', '%'],
    };
    let mut r: Vec<char> = Vec::new();
    r.extend_from_slice(t);
    proof {
        assert(r@ =~= slot_tokens()[k as int]);
    }
    r
}

/// `s` from `pos` on with every occurrence of `from` replaced by `to`,
/// occurrences taken left to right without overlap (`str::replace`).
pub open spec fn replace_from(s: Seq<char>, from: Seq<char>, to: Seq<char>, pos: int) -> Seq<char>
    decreases s.len() + 1 - pos,
{
    if from.len() == 0 || pos < 0 || pos > s.len() {
        s.skip(pos)
    } else {
        match find_from(s, from, pos) {
            None => s.skip(pos),
            Some(i) => {
                proof {
                    lemma_find_from_some(s, from, pos);
                }
                s.subrange(pos, i) + to + replace_from(s, from, to, i + from.len())
            },
        }
    }
}

/// `s` with every occurrence of `from` replaced by `to` (`str::replace`).
pub open spec fn replace_all(s: Seq<char>, from: Seq<char>, to: Seq<char>) -> Seq<char> {
    replace_from(s, from, to, 0)
}

/// Executable `replace_all` for a non-empty `from`.
pub fn replace_chars(s: &[char], from: &[char], to: &[char]) -> (r: Vec<char>)
    requires
        from@.len() > 0,
    ensures
        r@ == replace_all(s@, from@, to@),
{
    let n = s.len();
    let mut out: Vec<char> = Vec::new();
    let mut pos: usize = 0;
    loop
        invariant
            n == s@.len(),
            from@.len() > 0,
            pos <= n,
            out@ + replace_from(s@, from@, to@, pos as int) == replace_all(s@, from@, to@),
        decreases n + 1 - pos,
    {
        match find_from_exec(s, from, pos) {
            None => {
                let mut m = pos;
                let ghost start = out@;
                while m < n
                    invariant
                        pos <= m <= n,
                        n == s@.len(),
                        out@ == start + s@.subrange(pos as int, m as int),
                    decreases n - m,
                {
                    out.push(s[m]);
                    m += 1;
                    assert(out@ =~= start + s@.subrange(pos as int, m as int));
                }
                assert(s@.subrange(pos as int, n as int) =~= s@.skip(pos as int));
                return out;
            },
            Some(i) => {
                proof {
                    lemma_find_from_some(s@, from@, pos as int);
                }
                let ghost start = out@;
                let mut m = pos;
                while m < i
                    invariant
                        pos <= m <= i,
                        i + from@.len() <= n,
                        n == s@.len(),
                        out@ == start + s@.subrange(pos as int, m as int),
                    decreases i - m,
                {
                    out.push(s[m]);
                    m += 1;
                    assert(out@ =~= start + s@.subrange(pos as int, m as int));
                }
                out.extend_from_slice(to);
                assert(out@ =~= start + s@.subrange(pos as int, i as int) + to@);
                pos = i + from.len();
            },
        }
    }
}

/// `template` with each slot placeholder, in slot order, replaced by the
/// matching value of `values`: the first `k` placeholders done.
pub open spec fn render_upto(template: Seq<char>, values: Seq<Seq<char>>, k: nat) -> Seq<char>
    decreases k,
{
    if k == 0 {
        template
    } else {
        replace_all(
            render_upto(template, values, (k - 1) as nat),
            slot_tokens()[k - 1],
            values[k - 1],
        )
    }
}

/// `template` with every slot placeholder replaced by the palette's color.
pub open spec fn render(template: Seq<char>, values: Seq<Seq<char>>) -> Seq<char> {
    render_upto(template, values, 22)
}

/// The value of slot `k` of `p`.
fn slot_value(p: &Palette, k: usize) -> (r: Vec<char>)
    requires
        k < 22,
    ensures
        r@ == p.slots()[k as int],
{
    let s: &String = match k {
        0 => &p.base,
        1 => &p.mantle,
        2 => &p.crust,
        3 => &p.surface0,
        4 => &p.surface1,
        5 => &p.surface2,
        6 => &p.overlay0,
        7 => &p.overlay1,
        8 => &p.overlay2,
        9 => &p.subtext0,
        10 => &p.subtext1,
        11 => &p.text,
        12 => &p.lavender,
        13 => &p.blue,
        14 => &p.mauve,
        15 => &p.red,
        16 => &p.green,
        17 => &p.yellow,
        18 => &p.teal,
        19 => &p.sky,
        20 => &p.pink,
        _ => &p.peach,
    };
    chars_of(s.as_str())
}

/// Replaces the `%%NAME%%` placeholders of `template` with the colors of
/// `palette`, one slot after the other in slot order.
pub fn render_block(template: &str, palette: &Palette) -> (r: String)
    ensures
        r@ == render(template@, palette.slots()),
{
    let mut css = chars_of(template);
    let mut k: usize = 0;
    while k < 22
        invariant
            k <= 22,
            css@ == render_upto(template@, palette.slots(), k as nat),
        decreases 22 - k,
    {
        let token = slot_token(k);
        let value = slot_value(palette, k);
        css = replace_chars(css.as_slice(), token.as_slice(), value.as_slice());
        k += 1;
    }
    string_of(css.as_slice())
}

/// The stylesheet of a theme: the light template rendered with the light
/// palette, a newline, then the dark template rendered with the dark one.
pub open spec fn theme_css(theme: ThemeId) -> Seq<char> {
    render(LIGHT_BLOCK@, hex_slots(palette_colors(theme, Variant::Light))) + seq!['\n'] + render(
        DARK_BLOCK@,
        hex_slots(palette_colors(theme, Variant::Dark)),
    )
}

/// The full stylesheet for `theme` (see `theme_css`).
pub fn build_css(theme: ThemeId) -> (r: String)
    ensures
        r@ == theme_css(theme),
{
    let light = palette(theme, Variant::Light);
    let dark = palette(theme, Variant::Dark);
    let mut css = chars_of(render_block(LIGHT_BLOCK, &light).as_str());
    css.push('\n');
    let mut rest = chars_of(render_block(DARK_BLOCK, &dark).as_str());
    css.append(&mut rest);
    string_of(css.as_slice())
}

/// `%%name%%`: the placeholder that names a slot in the templates.
pub open spec fn placeholder(name: Seq<char>) -> Seq<char> {
    seq!['%', '%'] + name + seq!['%', '%']
}

/// No character of `s` is `%`.
pub open spec fn no_percent(s: Seq<char>) -> bool {
    forall|c: int| 0 <= c < s.len() ==> #[trigger] s[c] != '%'
}

/// A placeholder's shape: `%%`, at least one character that is not `%`,
/// then `%%`.
spec fn tok_ok(t: Seq<char>) -> bool {
    &&& t.len() >= 5
    &&& t[0] == '%' && t[1] == '%' && t[t.len() - 2] == '%' && t[t.len() - 1] == '%'
    &&& forall|c: int| 2 <= c < t.len() - 2 ==> #[trigger] t[c] != '%'
}

/// A number that tells the placeholders apart.
spec fn token_key(t: Seq<char>) -> int {
    t.len() * 1000000 + (t[2] as int) * 10000 + (t[4] as int) * 100 + (t[t.len() - 3] as int)
}

spec fn token_key_table(i: int) -> int {
    if i == 0 {
        8668369
    } else if i == 1 {
        10777869
    } else if i == 2 {
        9678584
    } else if i == 3 {
        12838248
    } else if i == 4 {
        12838249
    } else if i == 5 {
        12838250
    } else if i == 6 {
        12796948
    } else if i == 7 {
        12796949
    } else if i == 8 {
        12796950
    } else if i == 9 {
        12836648
    } else if i == 10 {
        12836649
    } else if i == 11 {
        8848884
    } else if i == 12 {
        12768682
    } else if i == 13 {
        8668569
    } else if i == 14 {
        9778569
    } else if i == 15 {
        7826868
    } else if i == 16 {
        9716978
    } else if i == 17 {
        10897687
    } else if i == 18 {
        8846576
    } else if i == 19 {
        7838989
    } else if i == 20 {
        8807875
    } else {
        9806572
    }
}

proof fn lemma_token_facts(i: int)
    requires
        0 <= i < 22,
    ensures
        tok_ok(slot_tokens()[i]),
        token_key(slot_tokens()[i]) == token_key_table(i),
{
    if i == 0 {
        assert(tok_ok(slot_tokens()[0]));
        assert(token_key(slot_tokens()[0]) == 8668369);
    } else if i == 1 {
        assert(tok_ok(slot_tokens()[1]));
        assert(token_key(slot_tokens()[1]) == 10777869);
    } else if i == 2 {
        assert(tok_ok(slot_tokens()[2]));
        assert(token_key(slot_tokens()[2]) == 9678584);
    } else if i == 3 {
        assert(tok_ok(slot_tokens()[3]));
        assert(token_key(slot_tokens()[3]) == 12838248);
    } else if i == 4 {
        assert(tok_ok(slot_tokens()[4]));
        assert(token_key(slot_tokens()[4]) == 12838249);
    } else if i == 5 {
        assert(tok_ok(slot_tokens()[5]));
        assert(token_key(slot_tokens()[5]) == 12838250);
    } else if i == 6 {
        assert(tok_ok(slot_tokens()[6]));
        assert(token_key(slot_tokens()[6]) == 12796948);
    } else if i == 7 {
        assert(tok_ok(slot_tokens()[7]));
        assert(token_key(slot_tokens()[7]) == 12796949);
    } else if i == 8 {
        assert(tok_ok(slot_tokens()[8]));
        assert(token_key(slot_tokens()[8]) == 12796950);
    } else if i == 9 {
        assert(tok_ok(slot_tokens()[9]));
        assert(token_key(slot_tokens()[9]) == 12836648);
    } else if i == 10 {
        assert(tok_ok(slot_tokens()[10]));
        assert(token_key(slot_tokens()[10]) == 12836649);
    } else if i == 11 {
        assert(tok_ok(slot_tokens()[11]));
        assert(token_key(slot_tokens()[11]) == 8848884);
    } else if i == 12 {
        assert(tok_ok(slot_tokens()[12]));
        assert(token_key(slot_tokens()[12]) == 12768682);
    } else if i == 13 {
        assert(tok_ok(slot_tokens()[13]));
        assert(token_key(slot_tokens()[13]) == 8668569);
    } else if i == 14 {
        assert(tok_ok(slot_tokens()[14]));
        assert(token_key(slot_tokens()[14]) == 9778569);
    } else if i == 15 {
        assert(tok_ok(slot_tokens()[15]));
        assert(token_key(slot_tokens()[15]) == 7826868);
    } else if i == 16 {
        assert(tok_ok(slot_tokens()[16]));
        assert(token_key(slot_tokens()[16]) == 9716978);
    } else if i == 17 {
        assert(tok_ok(slot_tokens()[17]));
        assert(token_key(slot_tokens()[17]) == 10897687);
    } else if i == 18 {
        assert(tok_ok(slot_tokens()[18]));
        assert(token_key(slot_tokens()[18]) == 8846576);
    } else if i == 19 {
        assert(tok_ok(slot_tokens()[19]));
        assert(token_key(slot_tokens()[19]) == 7838989);
    } else if i == 20 {
        assert(tok_ok(slot_tokens()[20]));
        assert(token_key(slot_tokens()[20]) == 8807875);
    } else if i == 21 {
        assert(tok_ok(slot_tokens()[21]));
        assert(token_key(slot_tokens()[21]) == 9806572);
    }
}

/// Different slots have different placeholders.
proof fn lemma_tokens_distinct(i: int, j: int)
    requires
        0 <= i < 22,
        0 <= j < 22,
        i != j,
    ensures
        slot_tokens()[i] != slot_tokens()[j],
{
    lemma_token_facts(i);
    lemma_token_facts(j);
}

/// A placeholder found inside another placeholder is that placeholder.
proof fn lemma_token_in_token(a: Seq<char>, b: Seq<char>, p: int)
    requires
        tok_ok(a),
        tok_ok(b),
        occurs_at(b, a, p),
    ensures
        a == b,
{
    let la = a.len() as int;
    let lb = b.len() as int;
    assert(b.subrange(p, p + la) == a);
    assert(b[p] == a[0]);
    assert(b[p + 1] == a[1]);
    assert(p == 0);
    assert(b[la - 1] == a[la - 1]);
    assert(b[la - 2] == a[la - 2]);
    assert(la == lb);
    assert(b.subrange(0, lb) =~= b);
}

/// Replacing a piece that does not occur changes nothing.
proof fn lemma_replace_absent(s: Seq<char>, from: Seq<char>, to: Seq<char>)
    requires
        from.len() > 0,
        forall|p: int| !#[trigger] occurs_at(s, from, p),
    ensures
        replace_all(s, from, to) == s,
{
    if find_from(s, from, 0) is Some {
        lemma_find_from_some(s, from, 0);
        assert(occurs_at(s, from, find_from(s, from, 0)->0));
    }
    assert(s.skip(0) =~= s);
}

/// Replacing a whole text gives the replacement.
proof fn lemma_replace_whole(t: Seq<char>, to: Seq<char>)
    requires
        t.len() > 0,
    ensures
        replace_all(t, t, to) == to,
{
    assert(t.subrange(0, t.len() as int) =~= t);
    assert(occurs_at(t, t, 0));
    assert(find_from(t, t, 0) == Some(0int));
    assert(find_from(t, t, t.len() as int) is None);
    assert(replace_from(t, t, to, t.len() as int) =~= Seq::<char>::empty());
    assert(t.subrange(0, 0) + to + Seq::<char>::empty() =~= to);
}

/// Rendering the placeholder of slot `i` alone, the first `k` slots done.
proof fn lemma_render_upto_slot(values: Seq<Seq<char>>, i: int, k: nat)
    requires
        0 <= i < 22,
        k <= 22,
        values.len() == 22,
        no_percent(values[i]),
    ensures
        render_upto(slot_tokens()[i], values, k) == (if k <= i { slot_tokens()[i] } else { values[i] }),
    decreases k,
{
    if k > 0 {
        let j = k - 1;
        lemma_render_upto_slot(values, i, j as nat);
        lemma_token_facts(i);
        lemma_token_facts(j);
        let tj = slot_tokens()[j];
        let ti = slot_tokens()[i];
        if j < i {
            assert forall|p: int| !#[trigger] occurs_at(ti, tj, p) by {
                if occurs_at(ti, tj, p) {
                    lemma_token_in_token(tj, ti, p);
                    lemma_tokens_distinct(i, j);
                }
            }
            lemma_replace_absent(ti, tj, values[j]);
        } else if j == i {
            lemma_replace_whole(ti, values[i]);
        } else {
            assert forall|p: int| !#[trigger] occurs_at(values[i], tj, p) by {
                if occurs_at(values[i], tj, p) {
                    assert(values[i].subrange(p, p + tj.len()) == tj);
                    assert(values[i][p] == tj[0]);
                }
            }
            lemma_replace_absent(values[i], tj, values[j]);
        }
    }
}

proof fn lemma_render_slot(values: Seq<Seq<char>>, i: int)
    requires
        0 <= i < 22,
        values.len() == 22,
        no_percent(values[i]),
    ensures
        render(slot_tokens()[i], values) == values[i],
{
    lemma_render_upto_slot(values, i, 22);
}

/// Each placeholder spells the name of the slot it stands for: rendered
/// with a palette whose colors hold no `%`, `%%BLUE%%` becomes the blue
/// color, `%%MAUVE%%` the mauve one, and so on for every slot.
pub proof fn lemma_placeholders_name_their_slots(p: Palette)
    requires
        forall|k: int| 0 <= k < 22 ==> no_percent(#[trigger] p.slots()[k]),
    ensures
        render(placeholder(seq!['B', 'A', 'S', 'E']), p.slots()) == p.base@,
        render(placeholder(seq!['M', 'A', 'N', 'T', 'L', 'E']), p.slots()) == p.mantle@,
        render(placeholder(seq!['C', 'R', 'U', 'S', 'T']), p.slots()) == p.crust@,
        render(placeholder(seq!['S', 'U', 'R', 'F', 'A', 'C', 'E', '0']), p.slots()) == p.surface0@,
        render(placeholder(seq!['S', 'U', 'R', 'F', 'A', 'C', 'E', '1']), p.slots()) == p.surface1@,
        render(placeholder(seq!['S', 'U', 'R', 'F', 'A', 'C', 'E', '2']), p.slots()) == p.surface2@,
        render(placeholder(seq!['O', 'V', 'E', 'R', 'L', 'A', 'Y', '0']), p.slots()) == p.overlay0@,
        render(placeholder(seq!['O', 'V', 'E', 'R', 'L', 'A', 'Y', '1']), p.slots()) == p.overlay1@,
        render(placeholder(seq!['O', 'V', 'E', 'R', 'L', 'A', 'Y', '2']), p.slots()) == p.overlay2@,
        render(placeholder(seq!['S', 'U', 'B', 'T', 'E', 'X', 'T', '0']), p.slots()) == p.subtext0@,
        render(placeholder(seq!['S', 'U', 'B', 'T', 'E', 'X', 'T', '1']), p.slots()) == p.subtext1@,
        render(placeholder(seq!['T', 'E', 'X', 'T']), p.slots()) == p.text@,
        render(placeholder(seq!['L', 'A', 'V', 'E', 'N', 'D', 'E', 'R']), p.slots()) == p.lavender@,
        render(placeholder(seq!['B', 'L', 'U', 'E']), p.slots()) == p.blue@,
        render(placeholder(seq!['M', 'A', 'U', 'V', 'E']), p.slots()) == p.mauve@,
        render(placeholder(seq!['R', 'E', 'D']), p.slots()) == p.red@,
        render(placeholder(seq!['G', 'R', 'E', 'E', 'N']), p.slots()) == p.green@,
        render(placeholder(seq!['Y', 'E', 'L', 'L', 'O', 'W']), p.slots()) == p.yellow@,
        render(placeholder(seq!['T', 'E', 'A', 'L']), p.slots()) == p.teal@,
        render(placeholder(seq!['S', 'K', 'Y']), p.slots()) == p.sky@,
        render(placeholder(seq!['P', 'I', 'N', 'K']), p.slots()) == p.pink@,
        render(placeholder(seq!['P', 'E', 'A', 'C', 'H']), p.slots()) == p.peach@,
{
    assert(p.slots().len() == 22);
    lemma_render_slot(p.slots(), 0);
    assert(slot_tokens()[0] =~= placeholder(seq!['B', 'A', 'S', 'E']));
    lemma_render_slot(p.slots(), 1);
    assert(slot_tokens()[1] =~= placeholder(seq!['M', 'A', 'N', 'T', 'L', 'E']));
    lemma_render_slot(p.slots(), 2);
    assert(slot_tokens()[2] =~= placeholder(seq!['C', 'R', 'U', 'S', 'T']));
    lemma_render_slot(p.slots(), 3);
    assert(slot_tokens()[3] =~= placeholder(seq!['S', 'U', 'R', 'F', 'A', 'C', 'E', '0']));
    lemma_render_slot(p.slots(), 4);
    assert(slot_tokens()[4] =~= placeholder(seq!['S', 'U', 'R', 'F', 'A', 'C', 'E', '1']));
    lemma_render_slot(p.slots(), 5);
    assert(slot_tokens()[5] =~= placeholder(seq!['S', 'U', 'R', 'F', 'A', 'C', 'E', '2']));
    lemma_render_slot(p.slots(), 6);
    assert(slot_tokens()[6] =~= placeholder(seq!['O', 'V', 'E', 'R', 'L', 'A', 'Y', '0']));
    lemma_render_slot(p.slots(), 7);
    assert(slot_tokens()[7] =~= placeholder(seq!['O', 'V', 'E', 'R', 'L', 'A', 'Y', '1']));
    lemma_render_slot(p.slots(), 8);
    assert(slot_tokens()[8] =~= placeholder(seq!['O', 'V', 'E', 'R', 'L', 'A', 'Y', '2']));
    lemma_render_slot(p.slots(), 9);
    assert(slot_tokens()[9] =~= placeholder(seq!['S', 'U', 'B', 'T', 'E', 'X', 'T', '0']));
    lemma_render_slot(p.slots(), 10);
    assert(slot_tokens()[10] =~= placeholder(seq!['S', 'U', 'B', 'T', 'E', 'X', 'T', '1']));
    lemma_render_slot(p.slots(), 11);
    assert(slot_tokens()[11] =~= placeholder(seq!['T', 'E', 'X', 'T']));
    lemma_render_slot(p.slots(), 12);
    assert(slot_tokens()[12] =~= placeholder(seq!['L', 'A', 'V', 'E', 'N', 'D', 'E', 'R']));
    lemma_render_slot(p.slots(), 13);
    assert(slot_tokens()[13] =~= placeholder(seq!['B', 'L', 'U', 'E']));
    lemma_render_slot(p.slots(), 14);
    assert(slot_tokens()[14] =~= placeholder(seq!['M', 'A', 'U', 'V', 'E']));
    lemma_render_slot(p.slots(), 15);
    assert(slot_tokens()[15] =~= placeholder(seq!['R', 'E', 'D']));
    lemma_render_slot(p.slots(), 16);
    assert(slot_tokens()[16] =~= placeholder(seq!['G', 'R', 'E', 'E', 'N']));
    lemma_render_slot(p.slots(), 17);
    assert(slot_tokens()[17] =~= placeholder(seq!['Y', 'E', 'L', 'L', 'O', 'W']));
    lemma_render_slot(p.slots(), 18);
    assert(slot_tokens()[18] =~= placeholder(seq!['T', 'E', 'A', 'L']));
    lemma_render_slot(p.slots(), 19);
    assert(slot_tokens()[19] =~= placeholder(seq!['S', 'K', 'Y']));
    lemma_render_slot(p.slots(), 20);
    assert(slot_tokens()[20] =~= placeholder(seq!['P', 'I', 'N', 'K']));
    lemma_render_slot(p.slots(), 21);
    assert(slot_tokens()[21] =~= placeholder(seq!['P', 'E', 'A', 'C', 'H']));
}

} // verus!

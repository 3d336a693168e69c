//! Reading pywal's output: the `colors.json` export (`background`,
//! `foreground`, `color0`..`color15`) and the plain `colors` file (16 lines of
//! `#rrggbb`). Reading is all or nothing: a missing key, a malformed value or
//! a wrong line count gives `None`. Values are accepted in either hex case and
//! kept in lowercase.
use vstd::prelude::*;
use crate::note::copy_string;
use crate::palettes::Palette;
use crate::path::{join, join_exec};
use crate::autocomplete::{first_from, lemma_first_from, lines_of, split_lines, texts_of};
use crate::text::{
    ascii_lower, ascii_lower_exec, ascii_lowercase, chars_of, decimal, decimal_exec, find_from, find_from_exec,
    lemma_find_from_some, skip_ws_from, string_of, trim, trim_chars, trim_start,
};

verus! {

/// An ASCII hexadecimal digit, either case.
pub open spec fn is_hex_digit(c: char) -> bool {
    ('0' <= c && c <= '9') || ('a' <= c && c <= 'f') || ('A' <= c && c <= 'F')
}

/// `#rrggbb` in either hex case.
pub open spec fn is_hex_color(s: Seq<char>) -> bool {
    &&& s.len() == 7
    &&& s[0] == '#'
    &&& forall|i: int| 1 <= i < 7 ==> is_hex_digit(#[trigger] s[i])
}

/// A color value as read: `#rrggbb` in lowercase, or `None` when `raw` is
/// not `#rrggbb`.
pub open spec fn normalized_hex(raw: Seq<char>) -> Option<Seq<char>> {
    if is_hex_color(raw) {
        Some(ascii_lowercase(raw))
    } else {
        None
    }
}

fn is_hex_digit_exec(c: char) -> (r: bool)
    ensures
        r == is_hex_digit(c),
{
    ('0' <= c && c <= '9') || ('a' <= c && c <= 'f') || ('A' <= c && c <= 'F')
}

fn normalize_chars(raw: &[char]) -> (r: Option<String>)
    ensures
        match r {
            Some(s) => normalized_hex(raw@) == Some(s@),
            None => normalized_hex(raw@) is None,
        },
{
    if raw.len() != 7 || raw[0] != '#' {
        return None;
    }
    let mut i: usize = 1;
    while i < 7
        invariant
            raw@.len() == 7,
            1 <= i <= 7,
            forall|k: int| 1 <= k < i ==> is_hex_digit(#[trigger] raw@[k]),
        decreases 7 - i,
    {
        if !is_hex_digit_exec(raw[i]) {
            return None;
        }
        i += 1;
    }
    let mut low: Vec<char> = Vec::new();
    let mut j: usize = 0;
    while j < 7
        invariant
            raw@.len() == 7,
            j <= 7,
            low@ == ascii_lowercase(raw@.take(j as int)),
        decreases 7 - j,
    {
        low.push(ascii_lower_exec(raw[j]));
        j += 1;
        assert(low@ =~= ascii_lowercase(raw@.take(j as int)));
    }
    assert(raw@.take(7) =~= raw@);
    Some(string_of(low.as_slice()))
}

/// Validates `#rrggbb` (either hex case) and gives it in lowercase.
pub fn normalize_hex(raw: &str) -> (r: Option<String>)
    ensures
        match r {
            Some(s) => normalized_hex(raw@) == Some(s@),
            None => normalized_hex(raw@) is None,
        },
{
    normalize_chars(chars_of(raw).as_slice())
}

/// The quoted JSON key `"key"`.
pub open spec fn key_token(key: Seq<char>) -> Seq<char> {
    seq!['"'] + key + seq!['"']
}

/// The color value read right after a key that ends at `p`: spaces, `:`,
/// spaces, then a quoted `#rrggbb`.
pub open spec fn value_after(json: Seq<char>, p: int) -> Option<Seq<char>> {
    let a = trim_start(json.skip(p));
    if a.len() > 0 && a[0] == ':' {
        let b = trim_start(a.skip(1));
        if b.len() > 0 && b[0] == '"' {
            let c = b.skip(1);
            let e = first_from(c, '"', 0);
            if e < c.len() {
                normalized_hex(c.take(e))
            } else {
                None
            }
        } else {
            None
        }
    } else {
        None
    }
}

/// The first readable value under `token`, trying its occurrences left to
/// right from `pos` on, without overlap (as `str::match_indices` finds them).
pub open spec fn value_from(json: Seq<char>, token: Seq<char>, pos: int) -> Option<Seq<char>>
    decreases json.len() + 1 - pos,
{
    if token.len() == 0 || pos < 0 {
        None
    } else {
        match find_from(json, token, pos) {
            None => None,
            Some(i) => {
                proof {
                    lemma_find_from_some(json, token, pos);
                }
                match value_after(json, i + token.len()) {
                    Some(v) => Some(v),
                    None => if i + token.len() <= json.len() + 1 {
                        value_from(json, token, i + token.len())
                    } else {
                        None
                    },
                }
            },
        }
    }
}

/// The color stored under the exact quoted key `key` of `json`.
pub open spec fn json_color(json: Seq<char>, key: Seq<char>) -> Option<Seq<char>> {
    value_from(json, key_token(key), 0)
}

/// The color value right after position `p`, if there is one.
fn value_after_exec(json: &[char], p: usize) -> (r: Option<String>)
    requires
        p <= json@.len(),
    ensures
        match r {
            Some(s) => value_after(json@, p as int) == Some(s@),
            None => value_after(json@, p as int) is None,
        },
{
    let n = json.len();
    let a = skip_ws_from(json, p);
    if a >= n || json[a] != ':' {
        proof {
            if a < n {
                assert(json@.skip(a as int)[0] == json@[a as int]);
            }
        }
        return None;
    }
    proof {
        assert(json@.skip(a as int)[0] == json@[a as int]);
        assert(json@.skip(a as int).skip(1) =~= json@.skip(a + 1));
    }
    let b = skip_ws_from(json, a + 1);
    if b >= n || json[b] != '"' {
        proof {
            if b < n {
                assert(json@.skip(b as int)[0] == json@[b as int]);
            }
        }
        return None;
    }
    proof {
        assert(json@.skip(b as int)[0] == json@[b as int]);
        assert(json@.skip(b as int).skip(1) =~= json@.skip(b + 1));
    }
    let ghost c = json@.skip(b + 1);
    let mut e = b + 1;
    proof {
        lemma_first_from(c, '"', 0);
    }
    while e < n && json[e] != '"'
        invariant
            b + 1 <= e <= n,
            n == json@.len(),
            c == json@.skip(b + 1),
            first_from(c, '"', 0) == first_from(c, '"', e - (b + 1)),
        decreases n - e,
    {
        proof {
            assert(c[e - (b + 1)] == json@[e as int]);
        }
        e += 1;
    }
    if e >= n {
        return None;
    }
    proof {
        assert(c[e - (b + 1)] == json@[e as int]);
    }
    let mut raw: Vec<char> = Vec::new();
    let mut m = b + 1;
    while m < e
        invariant
            b + 1 <= m <= e < n,
            n == json@.len(),
            raw@ == json@.subrange(b + 1, m as int),
        decreases e - m,
    {
        raw.push(json[m]);
        m += 1;
        assert(raw@ =~= json@.subrange(b + 1, m as int));
    }
    assert(raw@ =~= c.take(e - (b + 1)));
    normalize_chars(raw.as_slice())
}

fn extract_chars(json: &[char], token: &[char]) -> (r: Option<String>)
    requires
        token@.len() > 0,
    ensures
        match r {
            Some(s) => value_from(json@, token@, 0) == Some(s@),
            None => value_from(json@, token@, 0) is None,
        },
{
    let mut pos: usize = 0;
    let n = json.len();
    loop
        invariant
            n == json@.len(),
            token@.len() > 0,
            pos <= json@.len() + 1,
            value_from(json@, token@, 0) == value_from(json@, token@, pos as int),
        decreases json@.len() + 1 - pos,
    {
        match find_from_exec(json, token, pos) {
            None => {
                return None;
            },
            Some(i) => {
                proof {
                    lemma_find_from_some(json@, token@, pos as int);
                }
                let next = i + token.len();
                match value_after_exec(json, next) {
                    Some(v) => {
                        return Some(v);
                    },
                    None => {
                        pos = next;
                    },
                }
            },
        }
    }
}

/// The color stored under the exact quoted key `key` of a `colors.json`
/// text, in lowercase: the first occurrence of `"key"` (closing quote
/// included, so `"color1"` never matches `"color10"`) followed by `:` and a
/// quoted `#rrggbb`.
pub fn extract_hex(json: &str, key: &str) -> (r: Option<String>)
    ensures
        match r {
            Some(s) => json_color(json@, key@) == Some(s@),
            None => json_color(json@, key@) is None,
        },
{
    let mut token: Vec<char> = Vec::new();
    token.push('"');
    let mut k = chars_of(key);
    token.append(&mut k);
    token.push('"');
    assert(token@ =~= key_token(key@));
    extract_chars(chars_of(json).as_slice(), token.as_slice())
}

/// The value of one hexadecimal digit.
pub open spec fn hex_value(c: char) -> nat {
    if '0' <= c && c <= '9' {
        (c as nat - 48) as nat
    } else if 'a' <= c && c <= 'f' {
        (c as nat - 87) as nat
    } else {
        (c as nat - 55) as nat
    }
}

/// The red, green and blue channels of a `#rrggbb`.
pub open spec fn channels(hex: Seq<char>) -> (u8, u8, u8) {
    (
        (hex_value(hex[1]) * 16 + hex_value(hex[2])) as u8,
        (hex_value(hex[3]) * 16 + hex_value(hex[4])) as u8,
        (hex_value(hex[5]) * 16 + hex_value(hex[6])) as u8,
    )
}

fn hex_value_exec(c: char) -> (v: u8)
    requires
        is_hex_digit(c),
    ensures
        v == hex_value(c),
        v < 16,
{
    if '0' <= c && c <= '9' {
        (c as u8) - 48
    } else if 'a' <= c && c <= 'f' {
        (c as u8) - 87
    } else {
        (c as u8) - 55
    }
}

/// The channels of a `#rrggbb` (either hex case).
pub fn rgb(hex: &str) -> (r: (u8, u8, u8))
    requires
        is_hex_color(hex@),
    ensures
        r == channels(hex@),
{
    let h = chars_of(hex);
    let r1 = hex_value_exec(h[1]);
    let r2 = hex_value_exec(h[2]);
    let g1 = hex_value_exec(h[3]);
    let g2 = hex_value_exec(h[4]);
    let b1 = hex_value_exec(h[5]);
    let b2 = hex_value_exec(h[6]);
    (r1 * 16 + r2, g1 * 16 + g2, b1 * 16 + b2)
}

/// pywal's colors as read: background, foreground and the 16 ANSI colors,
/// each a lowercase `#rrggbb`.
#[derive(Clone, Debug)]
pub struct WalColors {
    pub background: String,
    pub foreground: String,
    pub colors: Vec<String>,
}

/// The key `color<i>`.
pub open spec fn color_key(i: nat) -> Seq<char> {
    seq!['c', 'o', 'l', 'o', 'r'] + decimal(i)
}

/// The texts of a list of strings.
pub open spec fn texts_of_strings(v: Seq<String>) -> Seq<Seq<char>> {
    v.map_values(|s: String| s@)
}

/// What `colors.json` holds: `background`, `foreground` and `color0` to
/// `color15`, each readable; `None` as soon as one is not.
pub open spec fn json_colors(json: Seq<char>) -> Option<(Seq<char>, Seq<char>, Seq<Seq<char>>)> {
    let bg = json_color(json, seq!['b', 'a', 'c', 'k', 'g', 'r', 'o', 'u', 'n', 'd']);
    let fg = json_color(json, seq!['f', 'o', 'r', 'e', 'g', 'r', 'o', 'u', 'n', 'd']);
    if bg is Some && fg is Some && forall|i: int| 0 <= i < 16 ==> (#[trigger] json_color(json, color_key(i as nat))) is Some {
        Some((bg->0, fg->0, Seq::new(16, |i: int| json_color(json, color_key(i as nat))->0)))
    } else {
        None
    }
}

/// Reads `colors.json` (see `json_colors`).
pub fn read_colors_json(text: &str) -> (r: Option<WalColors>)
    ensures
        match r {
            Some(w) => json_colors(text@) == Some(
                (w.background@, w.foreground@, texts_of_strings(w.colors@)),
            ),
            None => json_colors(text@) is None,
        },
{
    let bgk: [char; 10] = ['b', 'a', 'c', 'k', 'g', 'r', 'o', 'u', 'n', 'd'];
    let fgk: [char; 10] = ['f', 'o', 'r', 'e', 'g', 'r', 'o', 'u', 'n', 'd'];
    let background = match extract_hex(text, string_of(&bgk).as_str()) {
        Some(v) => v,
        None => {
            assert(bgk@ =~= seq!['b', 'a', 'c', 'k', 'g', 'r', 'o', 'u', 'n', 'd']);
            return None;
        },
    };
    assert(bgk@ =~= seq!['b', 'a', 'c', 'k', 'g', 'r', 'o', 'u', 'n', 'd']);
    let foreground = match extract_hex(text, string_of(&fgk).as_str()) {
        Some(v) => v,
        None => {
            assert(fgk@ =~= seq!['f', 'o', 'r', 'e', 'g', 'r', 'o', 'u', 'n', 'd']);
            return None;
        },
    };
    assert(fgk@ =~= seq!['f', 'o', 'r', 'e', 'g', 'r', 'o', 'u', 'n', 'd']);
    let mut colors: Vec<String> = Vec::new();
    let mut i: u64 = 0;
    while i < 16
        invariant
            i <= 16,
            colors@.len() == i,
            forall|k: int| 0 <= k < i ==> (#[trigger] json_color(text@, color_key(k as nat))) == Some(
                colors@[k]@,
            ),
        decreases 16 - i,
    {
        let mut key: Vec<char> = Vec::new();
        key.push('c');
        key.push('o');
        key.push('l');
        key.push('o');
        key.push('r');
        let mut digits = decimal_exec(i);
        key.append(&mut digits);
        assert(key@ =~= color_key(i as nat));
        match extract_hex(text, string_of(key.as_slice()).as_str()) {
            Some(v) => {
                colors.push(v);
            },
            None => {
                proof {
                    let k = i as int;
                    assert(json_color(text@, color_key(k as nat)) is None);
                }
                return None;
            },
        }
        i += 1;
    }
    assert(texts_of_strings(colors@) =~= Seq::new(
        16,
        |k: int| json_color(text@, color_key(k as nat))->0,
    ));
    Some(WalColors { background, foreground, colors })
}

/// The lines of a `colors` file, trailing blank lines dropped.
pub open spec fn drop_blank_tail(lines: Seq<Seq<char>>) -> Seq<Seq<char>>
    decreases lines.len(),
{
    if lines.len() > 0 && trim(lines.last()).len() == 0 {
        drop_blank_tail(lines.drop_last())
    } else {
        lines
    }
}

/// What a `colors` file holds: exactly 16 lines of `#rrggbb` (blank lines
/// at the end tolerated, each line trimmed); the background is `color0` and
/// the foreground `color7`.
pub open spec fn file_colors(text: Seq<char>) -> Option<(Seq<char>, Seq<char>, Seq<Seq<char>>)> {
    let lines = drop_blank_tail(lines_of(text));
    if lines.len() == 16 && forall|i: int| 0 <= i < 16 ==> (#[trigger] normalized_hex(trim(lines[i]))) is Some {
        let cs = Seq::new(16, |i: int| normalized_hex(trim(lines[i]))->0);
        Some((cs[0], cs[7], cs))
    } else {
        None
    }
}

/// Reads a `colors` file (see `file_colors`).
pub fn read_colors_file(text: &str) -> (r: Option<WalColors>)
    ensures
        match r {
            Some(w) => file_colors(text@) == Some(
                (w.background@, w.foreground@, texts_of_strings(w.colors@)),
            ),
            None => file_colors(text@) is None,
        },
{
    let lines = split_lines(chars_of(text).as_slice());
    let ghost ls = lines_of(text@);
    let mut count = lines.len();
    assert(ls.take(count as int) =~= ls);
    while count > 0 && trim_chars(lines[count - 1].as_slice()).len() == 0
        invariant
            count <= lines@.len(),
            texts_of(lines@) == ls,
            drop_blank_tail(ls) == drop_blank_tail(ls.take(count as int)),
        decreases count,
    {
        proof {
            let t = ls.take(count as int);
            assert(t.last() == lines@[count - 1]@);
            assert(t.drop_last() =~= ls.take(count - 1));
        }
        count -= 1;
    }
    let ghost kept = ls.take(count as int);
    proof {
        if count > 0 {
            assert(kept.last() == lines@[count - 1]@);
        }
        assert(drop_blank_tail(ls) == kept);
    }
    if count != 16 {
        return None;
    }
    let mut colors: Vec<String> = Vec::new();
    let mut i: usize = 0;
    while i < 16
        invariant
            i <= 16,
            count == 16,
            count <= lines@.len(),
            texts_of(lines@) == ls,
            ls == lines_of(text@),
            drop_blank_tail(ls) == kept,
            kept == ls.take(16),
            colors@.len() == i,
            forall|k: int| 0 <= k < i ==> (#[trigger] normalized_hex(trim(kept[k]))) == Some(
                colors@[k]@,
            ),
        decreases 16 - i,
    {
        proof {
            assert(kept[i as int] == lines@[i as int]@);
        }
        match normalize_chars(trim_chars(lines[i].as_slice()).as_slice()) {
            Some(v) => {
                colors.push(v);
            },
            None => {
                proof {
                    let k = i as int;
                    assert(normalized_hex(trim(kept[k])) is None);
                }
                return None;
            },
        }
        i += 1;
    }
    let background = colors[0].clone();
    let foreground = colors[7].clone();
    assert(texts_of_strings(colors@) =~= Seq::new(
        16,
        |k: int| normalized_hex(trim(kept[k]))->0,
    ));
    Some(WalColors { background, foreground, colors })
}

/// What pywal's cache holds. `colors_json` is `None` when `colors.json`
/// does not exist, `Some(None)` when it exists but cannot be read as text,
/// else `Some(Some(text))`; `colors_file` is the text of `colors`, `None`
/// when it cannot be read. When `colors.json` exists it alone decides, read
/// all or nothing: a malformed or unreadable one never falls back to
/// `colors`. Otherwise the `colors` file decides; `None` when neither can be
/// read.
pub open spec fn wal_colors(
    colors_json: Option<Option<Seq<char>>>,
    colors_file: Option<Seq<char>>,
) -> Option<(Seq<char>, Seq<char>, Seq<Seq<char>>)> {
    match colors_json {
        Some(Some(j)) => json_colors(j),
        Some(None) => None,
        None => match colors_file {
            Some(c) => file_colors(c),
            None => None,
        },
    }
}

/// The texts as plain values.
pub open spec fn json_input(colors_json: Option<Option<&str>>) -> Option<Option<Seq<char>>> {
    match colors_json {
        Some(Some(j)) => Some(Some(j@)),
        Some(None) => Some(None),
        None => None,
    }
}

/// The text as a plain value.
pub open spec fn file_input(colors_file: Option<&str>) -> Option<Seq<char>> {
    match colors_file {
        Some(c) => Some(c@),
        None => None,
    }
}

/// Reads pywal's colors from what the cache holds (see `wal_colors`).
pub fn read_wal(colors_json: Option<Option<&str>>, colors_file: Option<&str>) -> (r: Option<
    WalColors,
>)
    ensures
        match r {
            Some(w) => wal_colors(json_input(colors_json), file_input(colors_file)) == Some(
                (w.background@, w.foreground@, texts_of_strings(w.colors@)),
            ),
            None => wal_colors(json_input(colors_json), file_input(colors_file)) is None,
        },
        r matches Some(w) ==> w.colors@.len() == 16,
{
    let r = match colors_json {
        Some(Some(j)) => read_colors_json(j),
        Some(None) => None,
        None => match colors_file {
            Some(c) => read_colors_file(c),
            None => None,
        },
    };
    proof {
        if r is Some {
            assert(texts_of_strings(r->0.colors@).len() == r->0.colors@.len());
        }
    }
    r
}

/// The wallpaper palette from pywal's colors: base and text are the
/// background and foreground, the accents are ANSI colors (red `color1`,
/// green `color2`, yellow `color3`, blue `color4`, mauve `color5`, teal
/// `color6`, peach `color9`, lavender `color12`, pink `color13`, sky
/// `color14`). `mantle` and `crust` are the background darkened, and `ramp`
/// the eight blends from background toward foreground (surface0..2,
/// overlay0..2, subtext0..1), which the caller computes.
pub fn wal_palette(w: &WalColors, mantle: String, crust: String, ramp: Vec<String>) -> (p: Palette)
    requires
        w.colors@.len() == 16,
        ramp@.len() == 8,
    ensures
        p.base@ == w.background@,
        p.text@ == w.foreground@,
        p.mantle@ == mantle@,
        p.crust@ == crust@,
        p.surface0@ == ramp@[0]@,
        p.surface1@ == ramp@[1]@,
        p.surface2@ == ramp@[2]@,
        p.overlay0@ == ramp@[3]@,
        p.overlay1@ == ramp@[4]@,
        p.overlay2@ == ramp@[5]@,
        p.subtext0@ == ramp@[6]@,
        p.subtext1@ == ramp@[7]@,
        p.red@ == w.colors@[1]@,
        p.green@ == w.colors@[2]@,
        p.yellow@ == w.colors@[3]@,
        p.blue@ == w.colors@[4]@,
        p.mauve@ == w.colors@[5]@,
        p.teal@ == w.colors@[6]@,
        p.peach@ == w.colors@[9]@,
        p.lavender@ == w.colors@[12]@,
        p.pink@ == w.colors@[13]@,
        p.sky@ == w.colors@[14]@,
{
    Palette {
        base: copy_string(&w.background),
        mantle,
        crust,
        surface0: copy_string(&ramp[0]),
        surface1: copy_string(&ramp[1]),
        surface2: copy_string(&ramp[2]),
        overlay0: copy_string(&ramp[3]),
        overlay1: copy_string(&ramp[4]),
        overlay2: copy_string(&ramp[5]),
        subtext0: copy_string(&ramp[6]),
        subtext1: copy_string(&ramp[7]),
        text: copy_string(&w.foreground),
        lavender: copy_string(&w.colors[12]),
        blue: copy_string(&w.colors[4]),
        mauve: copy_string(&w.colors[5]),
        red: copy_string(&w.colors[1]),
        green: copy_string(&w.colors[2]),
        yellow: copy_string(&w.colors[3]),
        teal: copy_string(&w.colors[6]),
        sky: copy_string(&w.colors[14]),
        pink: copy_string(&w.colors[13]),
        peach: copy_string(&w.colors[9]),
    }
}

/// Where pywal keeps its cache: `<XDG_CACHE_HOME>/wal` when that variable is
/// set and not empty, else `<HOME>/.cache/wal` when `HOME` is set and not
/// empty, else nowhere.
pub open spec fn wal_cache_dir_of(xdg_cache_home: Option<Seq<char>>, home: Option<Seq<char>>) -> Option<
    Seq<char>,
> {
    if xdg_cache_home is Some && xdg_cache_home->0.len() > 0 {
        Some(join(xdg_cache_home->0, seq!['w', 'a', 'l']))
    } else if home is Some && home->0.len() > 0 {
        Some(join(home->0, seq!['.', 'c', 'a', 'c', 'h', 'e', '/', 'w', 'a', 'l']))
    } else {
        None
    }
}

/// pywal's cache directory from the values of `XDG_CACHE_HOME` and `HOME`
/// (see `wal_cache_dir_of`).
pub fn wal_cache_dir(xdg_cache_home: Option<&str>, home: Option<&str>) -> (r: Option<String>)
    ensures
        r matches Some(d) ==> wal_cache_dir_of(file_input(xdg_cache_home), file_input(home)) == Some(
            d@,
        ),
        r is None ==> wal_cache_dir_of(file_input(xdg_cache_home), file_input(home)) is None,
{
    match xdg_cache_home {
        Some(c) => {
            let cv = chars_of(c);
            if cv.len() > 0 {
                let name: [char; 3] = ['w', 'a', 'l'];
                let d = join_exec(cv.as_slice(), &name);
                assert(name@ =~= seq!['w', 'a', 'l']);
                return Some(string_of(d.as_slice()));
            }
        },
        None => {},
    }
    match home {
        Some(h) => {
            let hv = chars_of(h);
            if hv.len() > 0 {
                let name: [char; 10] = ['.', 'c', 'a', 'c', 'h', 'e', '/', 'w', 'a', 'l'];
                let d = join_exec(hv.as_slice(), &name);
                assert(name@ =~= seq!['.', 'c', 'a', 'c', 'h', 'e', '/', 'w', 'a', 'l']);
                Some(string_of(d.as_slice()))
            } else {
                None
            }
        },
        None => None,
    }
}

} // verus!

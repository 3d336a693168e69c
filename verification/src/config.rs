//! The application's settings: where the notes live, the extension of new
//! note files, the autosave delay and the stored theme id.
use vstd::prelude::*;
use crate::path::join;
use crate::text::string_of;

verus! {

/// The settings as stored in the configuration file.
#[derive(Clone, Debug)]
pub struct Config {
    pub notes_dir: String,
    pub default_extension: String,
    pub auto_save_ms: u64,
    /// The stored theme id, kept as written: it is read by the desktop side,
    /// which falls back to Catppuccin on an unknown value.
    pub theme: String,
}

/// The theme id stored when none was: `catppuccin`.
pub open spec fn default_theme_text() -> Seq<char> {
    seq!['c', 'a', 't', 'p', 'p', 'u', 'c', 'c', 'i', 'n']
}

/// The notes directory under a home directory: `<home>/Notes`, `/tmp/Notes`
/// when the home directory is unknown.
pub open spec fn default_notes_dir(home: Option<Seq<char>>) -> Seq<char> {
    join(
        match home {
            Some(h) => h,
            None => seq!['/', 't', 'm', 'p'],
        },
        seq!['N', 'o', 't', 'e', 's'],
    )
}

/// The theme id used when the configuration file has none.
pub fn default_theme() -> (r: String)
    ensures
        r@ == default_theme_text(),
{
    let r = string_of(&['c', 'a', 't', 'p', 'p', 'u', 'c', 'c', 'i', 'n']);
    assert(r@ =~= default_theme_text());
    r
}

/// The user's home directory (`dirs::home_dir`), as text. It depends on the
/// user and the process's variables; nothing is stated of it.
#[verifier::external_body]
fn home_dir() -> (r: Option<String>) {
    match dirs::home_dir() {
        Some(p) => Some(p.to_string_lossy().into_owned()),
        None => None,
    }
}

impl Config {
    /// The default settings for the home directory `home`: notes in
    /// `<home>/Notes`, extension `md`, autosave after 300 ms, theme
    /// `catppuccin`.
    pub fn for_home(home: Option<String>) -> (r: Config)
        ensures
            r.notes_dir@ == default_notes_dir(
                match home {
                    Some(h) => Some(h@),
                    None => None,
                },
            ),
            r.default_extension@ == seq!['m', 'd'],
            r.auto_save_ms == 300,
            r.theme@ == default_theme_text(),
    {
        let base: Vec<char> = match home {
            Some(h) => crate::text::chars_of(h.as_str()),
            None => {
                let t: Vec<char> = vec!['/', 't', 'm', 'p'];
                assert(t@ =~= seq!['/', 't', 'm', 'p']);
                t
            },
        };
        let notes: [char; 5] = ['N', 'o', 't', 'e', 's'];
        assert(notes@ =~= seq!['N', 'o', 't', 'e', 's']);
        let dir = crate::path::join_exec(base.as_slice(), &notes);
        let ext = string_of(&['m', 'd']);
        assert(ext@ =~= seq!['m', 'd']);
        Config {
            notes_dir: string_of(dir.as_slice()),
            default_extension: ext,
            auto_save_ms: 300,
            theme: default_theme(),
        }
    }
}

impl Default for Config {
    /// The default settings for the current user's home directory (see
    /// `for_home`).
    fn default() -> (r: Config)
        ensures
            exists|home: Option<Seq<char>>| r.notes_dir@ == default_notes_dir(home),
            r.default_extension@ == seq!['m', 'd'],
            r.auto_save_ms == 300,
            r.theme@ == default_theme_text(),
    {
        let home = home_dir();
        let ghost h: Option<Seq<char>> = match &home {
            Some(s) => Some(s@),
            None => None,
        };
        let r = Config::for_home(home);
        assert(r.notes_dir@ == default_notes_dir(h));
        r
    }
}

} // verus!

//! Decisions of the main window that do not depend on the toolkit: which
//! key does what, when the results overlay shows, and the status texts.
use vstd::prelude::*;
use crate::text::{chars_of, decimal, decimal_exec, is_blank, is_whitespace_char, is_ws, string_of, trim};

verus! {

/// What a window shortcut does.
#[derive(Clone, Copy, PartialEq, Eq, Debug, Structural)]
pub enum ShortcutAction {
    NextNote,
    PrevNote,
    FocusSearch,
    NewNote,
    DeleteNote,
    OpenTrash,
    RenameNote,
    ThemePicker,
    OpenShortcuts,
    EscapeContextual,
}

/// The keys that window shortcuts use.
#[derive(Clone, Copy, PartialEq, Eq, Debug, Structural)]
pub enum ShortcutKey {
    J,
    K,
    L,
    F,
    N,
    D,
    T,
    R,
    P,
    Question,
    Escape,
}

/// One row of the shortcut table: the key, whether Ctrl is held, and how the
/// cheat sheet shows it.
#[derive(Clone, Copy, Debug)]
pub struct WindowShortcut {
    pub key: ShortcutKey,
    pub with_ctrl: bool,
    pub section: &'static str,
    pub keys_label: &'static str,
    pub description: &'static str,
    pub action: ShortcutAction,
}

/// The bindings of the shortcut table, in order: key, Ctrl, action.
pub open spec fn shortcut_bindings() -> Seq<(ShortcutKey, bool, ShortcutAction)> {
    seq![
        (ShortcutKey::J, true, ShortcutAction::NextNote),
        (ShortcutKey::K, true, ShortcutAction::PrevNote),
        (ShortcutKey::L, true, ShortcutAction::FocusSearch),
        (ShortcutKey::F, true, ShortcutAction::FocusSearch),
        (ShortcutKey::N, true, ShortcutAction::NewNote),
        (ShortcutKey::D, true, ShortcutAction::DeleteNote),
        (ShortcutKey::T, true, ShortcutAction::OpenTrash),
        (ShortcutKey::R, true, ShortcutAction::RenameNote),
        (ShortcutKey::P, true, ShortcutAction::ThemePicker),
        (ShortcutKey::Question, true, ShortcutAction::OpenShortcuts),
        (ShortcutKey::Escape, false, ShortcutAction::EscapeContextual),
    ]
}

/// How the cheat sheet shows each row of the shortcut table, in order:
/// section, keys, description.
pub open spec fn shortcut_labels() -> Seq<(Seq<char>, Seq<char>, Seq<char>)> {
    seq![
        ("Generales"@, "Ctrl+J"@, "Nota siguiente"@),
        ("Generales"@, "Ctrl+K"@, "Nota anterior"@),
        ("Generales"@, "Ctrl+L"@, "Ir al buscador"@),
        ("Generales"@, "Ctrl+F"@, "Ir al buscador"@),
        ("Generales"@, "Ctrl+N"@, "Nota nueva"@),
        ("Generales"@, "Ctrl+D"@, "Mover la nota actual a la papelera"@),
        ("Generales"@, "Ctrl+T"@, "Abrir la papelera"@),
        ("Generales"@, "Ctrl+R"@, "Renombrar la nota actual"@),
        ("Generales"@, "Ctrl+P"@, "Selector de tema"@),
        ("Generales"@, "Ctrl+?"@, "Mostrar esta ventana"@),
        ("Generales"@, "Esc"@, "Cerrar panel / ir al buscador"@),
    ]
}

fn row(
    key: ShortcutKey,
    with_ctrl: bool,
    keys_label: &'static str,
    description: &'static str,
    action: ShortcutAction,
) -> (r: WindowShortcut)
    ensures
        r.key == key,
        r.with_ctrl == with_ctrl,
        r.action == action,
        r.section@ == "Generales"@,
        r.keys_label@ == keys_label@,
        r.description@ == description@,
{
    WindowShortcut { key, with_ctrl, section: "Generales", keys_label, description, action }
}

/// The window's shortcuts: each registers a binding and documents it in the
/// cheat sheet.
pub fn window_shortcuts() -> (r: Vec<WindowShortcut>)
    ensures
        r@.len() == shortcut_bindings().len(),
        forall|i: int|
            0 <= i < r@.len() ==> ((#[trigger] r@[i]).key, r@[i].with_ctrl, r@[i].action)
                == shortcut_bindings()[i],
        forall|i: int|
            0 <= i < r@.len() ==> ((#[trigger] r@[i]).section@, r@[i].keys_label@,
                r@[i].description@) == shortcut_labels()[i],
        forall|i: int|
            0 <= i < r@.len() ==> (#[trigger] r@[i]).keys_label@ == keys_label_of(r@[i].key, r@[i].with_ctrl)
                && r@[i].description@ == action_description(r@[i].action),
{
    let r = vec![
        row(ShortcutKey::J, true, "Ctrl+J", "Nota siguiente", ShortcutAction::NextNote),
        row(ShortcutKey::K, true, "Ctrl+K", "Nota anterior", ShortcutAction::PrevNote),
        row(ShortcutKey::L, true, "Ctrl+L", "Ir al buscador", ShortcutAction::FocusSearch),
        row(ShortcutKey::F, true, "Ctrl+F", "Ir al buscador", ShortcutAction::FocusSearch),
        row(ShortcutKey::N, true, "Ctrl+N", "Nota nueva", ShortcutAction::NewNote),
        row(
            ShortcutKey::D,
            true,
            "Ctrl+D",
            "Mover la nota actual a la papelera",
            ShortcutAction::DeleteNote,
        ),
        row(ShortcutKey::T, true, "Ctrl+T", "Abrir la papelera", ShortcutAction::OpenTrash),
        row(ShortcutKey::R, true, "Ctrl+R", "Renombrar la nota actual", ShortcutAction::RenameNote),
        row(ShortcutKey::P, true, "Ctrl+P", "Selector de tema", ShortcutAction::ThemePicker),
        row(
            ShortcutKey::Question,
            true,
            "Ctrl+?",
            "Mostrar esta ventana",
            ShortcutAction::OpenShortcuts,
        ),
        row(
            ShortcutKey::Escape,
            false,
            "Esc",
            "Cerrar panel / ir al buscador",
            ShortcutAction::EscapeContextual,
        ),
    ];
    assert forall|i: int| 0 <= i < r@.len() implies ((#[trigger] r@[i]).key, r@[i].with_ctrl, r@[i].action)
        == shortcut_bindings()[i] by {}
    assert forall|i: int| 0 <= i < r@.len() implies ((#[trigger] r@[i]).section@, r@[i].keys_label@,
        r@[i].description@) == shortcut_labels()[i] by {}
    assert forall|i: int| 0 <= i < r@.len() implies (#[trigger] r@[i]).keys_label@ == keys_label_of(
        r@[i].key,
        r@[i].with_ctrl,
    ) && r@[i].description@ == action_description(r@[i].action) by {
        lemma_rows_show_their_bindings(i);
    }
    r
}

/// The action bound to `key` with Ctrl held or not: the first row of the
/// table from `j` on that has both.
pub open spec fn binding_from(key: ShortcutKey, ctrl: bool, j: int) -> Option<ShortcutAction>
    decreases shortcut_bindings().len() - j,
{
    if j < 0 || j >= shortcut_bindings().len() {
        None
    } else if shortcut_bindings()[j].0 == key && shortcut_bindings()[j].1 == ctrl {
        Some(shortcut_bindings()[j].2)
    } else {
        binding_from(key, ctrl, j + 1)
    }
}

/// What pressing `key` (with Ctrl when `ctrl`) does in the window, if
/// anything.
pub fn shortcut_action(key: ShortcutKey, ctrl: bool) -> (r: Option<ShortcutAction>)
    ensures
        r == binding_from(key, ctrl, 0),
{
    let table = window_shortcuts();
    let mut j: usize = 0;
    while j < table.len()
        invariant
            j <= table@.len(),
            table@.len() == shortcut_bindings().len(),
            forall|i: int|
                0 <= i < table@.len() ==> ((#[trigger] table@[i]).key, table@[i].with_ctrl, table@[i].action)
                    == shortcut_bindings()[i],
            binding_from(key, ctrl, 0) == binding_from(key, ctrl, j as int),
        decreases table@.len() - j,
    {
        let s = &table[j];
        proof {
            assert((s.key, s.with_ctrl, s.action) == shortcut_bindings()[j as int]);
        }
        if s.key == key && s.with_ctrl == ctrl {
            return Some(s.action);
        }
        j += 1;
    }
    None
}

/// No two rows claim the same key with the same Ctrl state.
pub proof fn lemma_no_duplicate_bindings(i: int, j: int)
    requires
        0 <= i < j < shortcut_bindings().len(),
    ensures
        !(shortcut_bindings()[i].0 == shortcut_bindings()[j].0 && shortcut_bindings()[i].1
            == shortcut_bindings()[j].1),
{
}

/// Every action has a row: whatever the window does by key is documented.
pub proof fn lemma_every_action_bound(action: ShortcutAction)
    ensures
        exists|i: int| 0 <= i < shortcut_bindings().len() && (#[trigger] shortcut_bindings()[i]).2 == action,
{
    let b = shortcut_bindings();
    match action {
        ShortcutAction::NextNote => assert(b[0].2 == action),
        ShortcutAction::PrevNote => assert(b[1].2 == action),
        ShortcutAction::FocusSearch => assert(b[2].2 == action),
        ShortcutAction::NewNote => assert(b[4].2 == action),
        ShortcutAction::DeleteNote => assert(b[5].2 == action),
        ShortcutAction::OpenTrash => assert(b[6].2 == action),
        ShortcutAction::RenameNote => assert(b[7].2 == action),
        ShortcutAction::ThemePicker => assert(b[8].2 == action),
        ShortcutAction::OpenShortcuts => assert(b[9].2 == action),
        ShortcutAction::EscapeContextual => assert(b[10].2 == action),
    }
}

/// How the cheat sheet writes a key.
pub open spec fn key_name(key: ShortcutKey) -> Seq<char> {
    match key {
        ShortcutKey::J => seq!['J'],
        ShortcutKey::K => seq!['K'],
        ShortcutKey::L => seq!['L'],
        ShortcutKey::F => seq!['F'],
        ShortcutKey::N => seq!['N'],
        ShortcutKey::D => seq!['D'],
        ShortcutKey::T => seq!['T'],
        ShortcutKey::R => seq!['R'],
        ShortcutKey::P => seq!['P'],
        ShortcutKey::Question => seq!['?'],
        ShortcutKey::Escape => seq!['E', 's', 'c'],
    }
}

/// How the cheat sheet writes a key pressed with Ctrl or without.
pub open spec fn keys_label_of(key: ShortcutKey, ctrl: bool) -> Seq<char> {
    if ctrl {
        seq!['C', 't', 'r', 'l', '+'] + key_name(key)
    } else {
        key_name(key)
    }
}

/// How the cheat sheet describes what an action does.
pub open spec fn action_description(action: ShortcutAction) -> Seq<char> {
    match action {
        ShortcutAction::NextNote => "Nota siguiente"@,
        ShortcutAction::PrevNote => "Nota anterior"@,
        ShortcutAction::FocusSearch => "Ir al buscador"@,
        ShortcutAction::NewNote => "Nota nueva"@,
        ShortcutAction::DeleteNote => "Mover la nota actual a la papelera"@,
        ShortcutAction::OpenTrash => "Abrir la papelera"@,
        ShortcutAction::RenameNote => "Renombrar la nota actual"@,
        ShortcutAction::ThemePicker => "Selector de tema"@,
        ShortcutAction::OpenShortcuts => "Mostrar esta ventana"@,
        ShortcutAction::EscapeContextual => "Cerrar panel / ir al buscador"@,
    }
}

/// The cheat sheet tells the truth: each row shows the key it binds (with
/// `Ctrl+` when Ctrl is held) and describes the action it performs.
pub proof fn lemma_rows_show_their_bindings(i: int)
    requires
        0 <= i < shortcut_bindings().len(),
    ensures
        shortcut_labels()[i].1 == keys_label_of(shortcut_bindings()[i].0, shortcut_bindings()[i].1),
        shortcut_labels()[i].2 == action_description(shortcut_bindings()[i].2),
{
    reveal_strlit("Ctrl+J");
    reveal_strlit("Ctrl+K");
    reveal_strlit("Ctrl+L");
    reveal_strlit("Ctrl+F");
    reveal_strlit("Ctrl+N");
    reveal_strlit("Ctrl+D");
    reveal_strlit("Ctrl+T");
    reveal_strlit("Ctrl+R");
    reveal_strlit("Ctrl+P");
    reveal_strlit("Ctrl+?");
    reveal_strlit("Esc");
    let b = shortcut_bindings()[i];
    let l = shortcut_labels()[i];
    assert(l.1 =~= keys_label_of(b.0, b.1));
}

/// A key does what the cheat sheet says: when `key` (with Ctrl or not) is
/// bound, some row shows exactly that key and describes the action it
/// triggers.
pub proof fn lemma_key_does_what_the_sheet_says(key: ShortcutKey, ctrl: bool)
    ensures
        binding_from(key, ctrl, 0) matches Some(a) ==> exists|i: int|
            0 <= i < shortcut_labels().len() && (#[trigger] shortcut_labels()[i]).1 == keys_label_of(
                key,
                ctrl,
            ) && shortcut_labels()[i].2 == action_description(a),
{
    lemma_binding_found(key, ctrl, 0);
    if binding_from(key, ctrl, 0) is Some {
        let i = choose|i: int|
            0 <= i < shortcut_bindings().len() && shortcut_bindings()[i].0 == key
                && shortcut_bindings()[i].1 == ctrl && Some(shortcut_bindings()[i].2) == binding_from(
                key,
                ctrl,
                0,
            );
        lemma_rows_show_their_bindings(i);
        assert(shortcut_labels()[i].1 == keys_label_of(key, ctrl));
    }
}

/// A binding found from row `j` on comes from a row with that key and
/// Ctrl state.
proof fn lemma_binding_found(key: ShortcutKey, ctrl: bool, j: int)
    requires
        0 <= j,
    ensures
        binding_from(key, ctrl, j) is Some ==> exists|i: int|
            j <= i < shortcut_bindings().len() && shortcut_bindings()[i].0 == key
                && shortcut_bindings()[i].1 == ctrl && Some(shortcut_bindings()[i].2) == binding_from(
                key,
                ctrl,
                j,
            ),
    decreases shortcut_bindings().len() - j,
{
    if j < shortcut_bindings().len() {
        lemma_binding_found(key, ctrl, j + 1);
    }
}

/// Whether the results overlay of the portrait layout is shown: only in
/// portrait mode, and then when the search entry has focus or holds a query
/// that is not blank.
pub fn results_overlay_visible(portrait: bool, focused: bool, query: &str) -> (r: bool)
    ensures
        r == (portrait && (focused || trim(query@).len() > 0)),
{
    portrait && (focused || !is_blank(query))
}

/// Number of words of `s` from position `i` on, a word being a maximal run
/// of non-whitespace characters (`str::split_whitespace`), given whether the
/// character before `i` ended a word already.
pub open spec fn words_from(s: Seq<char>, i: int, in_word: bool) -> nat
    decreases s.len() - i,
{
    if i < 0 || i >= s.len() {
        0
    } else if is_ws(s[i]) {
        words_from(s, i + 1, false)
    } else if in_word {
        words_from(s, i + 1, true)
    } else {
        1 + words_from(s, i + 1, true)
    }
}

/// Number of words of `s` (`split_whitespace().count()`).
pub open spec fn word_count_of(s: Seq<char>) -> nat {
    words_from(s, 0, false)
}

proof fn lemma_words_bound(s: Seq<char>, i: int, in_word: bool)
    requires
        0 <= i <= s.len(),
    ensures
        words_from(s, i, in_word) <= s.len() - i,
    decreases s.len() - i,
{
    if i < s.len() {
        lemma_words_bound(s, i + 1, !is_ws(s[i]));
    }
}

/// Number of words of `text` (see `word_count_of`).
pub fn word_count(text: &str) -> (r: usize)
    ensures
        r == word_count_of(text@),
{
    let s = chars_of(text);
    let mut count: usize = 0;
    let mut in_word = false;
    let mut i: usize = 0;
    proof {
        lemma_words_bound(s@, 0, false);
    }
    while i < s.len()
        invariant
            i <= s@.len(),
            s@ == text@,
            count + words_from(s@, i as int, in_word) == word_count_of(text@),
            count <= i,
        decreases s@.len() - i,
    {
        if is_whitespace_char(s[i]) {
            in_word = false;
        } else {
            if !in_word {
                count += 1;
            }
            in_word = true;
        }
        i += 1;
    }
    count
}

/// The editor's counter: `<words> palabras | <characters> caracteres`.
pub open spec fn editor_stats_text(s: Seq<char>) -> Seq<char> {
    decimal(word_count_of(s)) + seq![' ', 'p', 'a', 'l', 'a', 'b', 'r', 'a', 's', ' ', '|', ' ']
        + decimal(s.len()) + seq![' ', 'c', 'a', 'r', 'a', 'c', 't', 'e', 'r', 'e', 's']
}

/// The editor's word and character counter for `text`.
pub fn editor_stats(text: &str) -> (r: String)
    ensures
        r@ == editor_stats_text(text@),
{
    let words = word_count(text);
    let chars = chars_of(text);
    let mut out = decimal_exec(words as u64);
    let mid: [char; 12] = [' ', 'p', 'a', 'l', 'a', 'b', 'r', 'a', 's', ' ', '|', ' '];
    out.extend_from_slice(&mid);
    let mut n = decimal_exec(chars.len() as u64);
    out.append(&mut n);
    let tail: [char; 11] = [' ', 'c', 'a', 'r', 'a', 'c', 't', 'e', 'r', 'e', 's'];
    out.extend_from_slice(&tail);
    proof {
        assert(mid@ =~= seq![' ', 'p', 'a', 'l', 'a', 'b', 'r', 'a', 's', ' ', '|', ' ']);
        assert(tail@ =~= seq![' ', 'c', 'a', 'r', 'a', 'c', 't', 'e', 'r', 'e', 's']);
    }
    string_of(out.as_slice())
}

/// The status line: `<total> notas en total` without a query, `<shown> de
/// <total> notas` with one.
pub open spec fn status_text_of(query: Seq<char>, shown: nat, total: nat) -> Seq<char> {
    if trim(query).len() == 0 {
        decimal(total) + seq![' ', 'n', 'o', 't', 'a', 's', ' ', 'e', 'n', ' ', 't', 'o', 't', 'a', 'l']
    } else {
        decimal(shown) + seq![' ', 'd', 'e', ' '] + decimal(total) + seq![' ', 'n', 'o', 't', 'a', 's']
    }
}

/// The status line for the search `query` showing `shown` of `total` notes.
pub fn status_text(query: &str, shown: usize, total: usize) -> (r: String)
    ensures
        r@ == status_text_of(query@, shown as nat, total as nat),
{
    if is_blank(query) {
        let mut out = decimal_exec(total as u64);
        let tail: [char; 15] = [' ', 'n', 'o', 't', 'a', 's', ' ', 'e', 'n', ' ', 't', 'o', 't', 'a', 'l'];
        out.extend_from_slice(&tail);
        assert(tail@ =~= seq![' ', 'n', 'o', 't', 'a', 's', ' ', 'e', 'n', ' ', 't', 'o', 't', 'a', 'l']);
        string_of(out.as_slice())
    } else {
        let mut out = decimal_exec(shown as u64);
        let de: [char; 4] = [' ', 'd', 'e', ' '];
        out.extend_from_slice(&de);
        let mut t = decimal_exec(total as u64);
        out.append(&mut t);
        let tail: [char; 6] = [' ', 'n', 'o', 't', 'a', 's'];
        out.extend_from_slice(&tail);
        assert(de@ =~= seq![' ', 'd', 'e', ' ']);
        assert(tail@ =~= seq![' ', 'n', 'o', 't', 'a', 's']);
        string_of(out.as_slice())
    }
}

/// What Enter in the search entry does.
pub enum SearchEnter {
    /// The query is blank: go to the editor.
    FocusEditor,
    /// Open the best match.
    Open(String),
    /// Nothing matches: create a note holding the trimmed query.
    Create(String),
}

/// What Enter in the search entry does for `query`, given the ids the search
/// currently shows, best first.
pub fn search_enter(query: &str, shown: &[String]) -> (r: SearchEnter)
    ensures
        match r {
            SearchEnter::FocusEditor => trim(query@).len() == 0,
            SearchEnter::Open(id) => trim(query@).len() > 0 && shown@.len() > 0 && id@
                == shown@[0]@,
            SearchEnter::Create(content) => trim(query@).len() > 0 && shown@.len() == 0
                && content@ == trim(query@),
        },
{
    let q = crate::text::trim_chars(chars_of(query).as_slice());
    if q.len() == 0 {
        SearchEnter::FocusEditor
    } else if shown.len() > 0 {
        SearchEnter::Open(shown[0].clone())
    } else {
        SearchEnter::Create(string_of(q.as_slice()))
    }
}

/// The row that J/K moves the list selection to: `delta` rows from the
/// selected one (from just before the first row when none is selected), or
/// nothing when that falls before the first row.
pub fn selection_target(selected: Option<i32>, delta: i32) -> (t: Option<i32>)
    requires
        i32::MIN <= (match selected { Some(i) => i as int, None => -1 }) + delta <= i32::MAX,
    ensures
        ({
            let target = (match selected { Some(i) => i as int, None => -1 }) + delta;
            if target < 0 { t is None } else { t == Some(target as i32) }
        }),
{
    let current: i32 = match selected {
        Some(i) => i,
        None => -1,
    };
    let target: i32 = current + delta;
    if target < 0 {
        None
    } else {
        Some(target)
    }
}

} // verus!

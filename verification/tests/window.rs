use nv_core::results_overlay_visible;
use nv_core::window::{
    editor_stats, search_enter, selection_target, shortcut_action, status_text, window_shortcuts, word_count,
    SearchEnter, ShortcutAction, ShortcutKey,
};

#[test]
fn results_overlay_visibility_rule() {
    // Sin orientación vertical el overlay nunca se muestra.
    for focused in [false, true] {
        for q in ["", "proy", "   ", " x "] {
            assert!(!results_overlay_visible(false, focused, q));
        }
    }
    // Vertical: foco o query no-vacía lo muestran; sin foco y query vacía, no.
    assert!(!results_overlay_visible(true, false, ""));
    assert!(!results_overlay_visible(true, false, "   "));
    assert!(results_overlay_visible(true, true, ""));
    assert!(results_overlay_visible(true, true, "proy"));
    assert!(results_overlay_visible(true, false, "proy"));
    assert!(results_overlay_visible(true, false, "  x"));
}

#[test]
fn window_shortcuts_table_is_consistent() {
    let table = window_shortcuts();
    // Sin combos duplicados: dos filas nunca pueden reclamar la misma tecla.
    for (i, a) in table.iter().enumerate() {
        for b in &table[i + 1..] {
            assert!(
                !(a.key == b.key && a.with_ctrl == b.with_ctrl),
                "atajo duplicado en WINDOW_SHORTCUTS"
            );
        }
    }
    // Toda acción tiene al menos una fila: lo que se ejecuta se documenta.
    for action in [
        ShortcutAction::NextNote,
        ShortcutAction::PrevNote,
        ShortcutAction::FocusSearch,
        ShortcutAction::NewNote,
        ShortcutAction::DeleteNote,
        ShortcutAction::OpenTrash,
        ShortcutAction::RenameNote,
        ShortcutAction::ThemePicker,
        ShortcutAction::OpenShortcuts,
        ShortcutAction::EscapeContextual,
    ] {
        assert!(
            table.iter().any(|s| s.action == action),
            "acción sin fila en WINDOW_SHORTCUTS: {action:?}"
        );
    }
    // Filas con contenido para el cheatsheet.
    for sc in &table {
        assert!(!sc.section.is_empty() && !sc.keys_label.is_empty() && !sc.description.is_empty());
    }
}

#[test]
fn shortcut_lookup() {
    assert_eq!(shortcut_action(ShortcutKey::J, true), Some(ShortcutAction::NextNote));
    assert_eq!(shortcut_action(ShortcutKey::F, true), Some(ShortcutAction::FocusSearch));
    assert_eq!(shortcut_action(ShortcutKey::J, false), None);
    assert_eq!(shortcut_action(ShortcutKey::Escape, false), Some(ShortcutAction::EscapeContextual));
    assert_eq!(shortcut_action(ShortcutKey::Escape, true), None);
}

#[test]
fn word_counts_match_split_whitespace() {
    for s in ["", "one", "  two  words ", "a\tb\nc", "ñandú\u{3000}año", "   ", "x\u{85}y"] {
        assert_eq!(word_count(s), s.split_whitespace().count(), "words of {s:?}");
        assert_eq!(
            editor_stats(s),
            format!("{} palabras | {} caracteres", s.split_whitespace().count(), s.chars().count())
        );
    }
}

#[test]
fn status_line() {
    assert_eq!(status_text("", 3, 7), "7 notas en total");
    assert_eq!(status_text("   ", 3, 7), "7 notas en total");
    assert_eq!(status_text("milk", 3, 7), "3 de 7 notas");
}

#[test]
fn enter_in_search() {
    assert!(matches!(search_enter("  ", &["a".to_string()]), SearchEnter::FocusEditor));
    assert!(matches!(search_enter("x", &["a".to_string(), "b".to_string()]), SearchEnter::Open(id) if id == "a"));
    assert!(matches!(search_enter("  buy milk ", &[]), SearchEnter::Create(c) if c == "buy milk"));
}

#[test]
fn shortcut_labels_name_their_keys() {
    let t = window_shortcuts();
    assert_eq!(t[0].keys_label, "Ctrl+J");
    assert_eq!(t[0].description, "Nota siguiente");
    assert_eq!(t[9].keys_label, "Ctrl+?");
    assert_eq!(t[10].keys_label, "Esc");
    assert_eq!(t[10].description, "Cerrar panel / ir al buscador");
    assert!(t.iter().all(|s| s.section == "Generales"));
}

#[test]
fn selection_moves_by_delta_and_stops_before_first_row() {
    assert_eq!(selection_target(None, 1), Some(0));
    assert_eq!(selection_target(None, -1), None);
    assert_eq!(selection_target(Some(0), -1), None);
    assert_eq!(selection_target(Some(3), -1), Some(2));
    assert_eq!(selection_target(Some(3), 1), Some(4));
}

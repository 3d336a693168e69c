use nv_core::config::{default_theme, Config};
use nv_core::ffi::{check_notes_dir, list_snapshots, search_snapshots, snapshot_by_id, snapshot_of, NvError};
use nv_core::note::Note;

#[test]
fn default_theme_is_catppuccin() {
    assert_eq!(Config::default().theme, "catppuccin");
}

#[test]
fn defaults_follow_the_home_directory() {
    let c = Config::for_home(Some("/home/u".to_string()));
    assert_eq!(c.notes_dir, "/home/u/Notes");
    assert_eq!(c.default_extension, "md");
    assert_eq!(c.auto_save_ms, 300);
    assert_eq!(c.theme, default_theme());
    assert_eq!(Config::for_home(None).notes_dir, "/tmp/Notes");
    let d = Config::default();
    assert!(d.notes_dir.ends_with("/Notes"));
}

#[test]
fn error_display_mentions_context() {
    assert!(NvError::NotFound("x".into()).message().contains('x'));
    assert!(NvError::InvalidPath(String::new()).message().contains("invalid"));
    let io: NvError = std::io::Error::new(std::io::ErrorKind::Other, "boom").into();
    assert!(matches!(io, NvError::Io(_)));
}

#[test]
fn error_messages() {
    assert_eq!(NvError::NotFound("a".into()).message(), "note not found: a");
    assert_eq!(NvError::InvalidPath("/x".into()).message(), "invalid notes dir: /x");
    let io: NvError = std::io::Error::new(std::io::ErrorKind::Other, "boom").into();
    assert_eq!(io.message(), "i/o error: boom");
    assert!(io.is_io());
    assert!(!NvError::NotFound(String::new()).is_io());
}

#[test]
fn snapshot_maps_all_fields_with_millis_dates() {
    let note = Note::from_parts("/d/hello.md", "hi #zeta #alpha".to_string(), 1234, Some(1000));
    let snap = snapshot_of(&note);
    assert_eq!(snap.id, "hello");
    assert_eq!(snap.title, "hello");
    assert_eq!(snap.content, "hi #zeta #alpha");
    assert_eq!(snap.tags, vec!["alpha", "zeta"]);
    assert_eq!(snap.modified_ms, 1234);
    assert_eq!(snap.created_ms, 1000);
}

#[test]
fn search_returns_ranked_snapshots() {
    let notes = vec![
        Note::from_parts("/d/shopping.md", "buy milk eggs".to_string(), 2, None),
        Note::from_parts("/d/ideas.md", "unrelated text".to_string(), 1, None),
    ];
    assert_eq!(list_snapshots(&notes).len(), 2);
    let hits = search_snapshots(&notes, "milk");
    assert_eq!(hits.len(), 1);
    assert_eq!(hits[0].id, "shopping");
    assert_eq!(hits[0].content, "buy milk eggs");
    assert_eq!(search_snapshots(&notes, "").len(), 2);
    assert_eq!(snapshot_by_id(&notes, "ideas".to_string()).unwrap().content, "unrelated text");
    assert!(matches!(snapshot_by_id(&notes, "ghost".to_string()), Err(NvError::NotFound(id)) if id == "ghost"));
}

#[test]
fn blank_notes_dir_is_rejected() {
    assert!(matches!(check_notes_dir("   ".to_string()), Err(NvError::InvalidPath(_))));
    assert_eq!(check_notes_dir("/tmp/n".to_string()).unwrap(), "/tmp/n");
}

use nv_core::config::Config;
use nv_core::note::Note;
use nv_core::storage::{
    candidate_title, creation_title, find_note, is_note_file, note_filename, rename_title,
    sort_newest_first, trash_name, unique_path, RenamePlan, SavePlan, StorageManager,
};
use std::cell::RefCell;
use std::collections::HashSet;

fn note(id: &str, content: &str, modified: i64) -> Note {
    Note::from_parts(&format!("/notes/{id}.md"), content.to_string(), modified, None)
}

fn storage(notes: Vec<Note>) -> StorageManager {
    StorageManager::new(
        &Config {
            notes_dir: "/notes".to_string(),
            default_extension: "md".to_string(),
            auto_save_ms: 300,
            theme: "catppuccin".to_string(),
        },
        notes,
    )
}

fn ids(s: &StorageManager) -> Vec<&str> {
    s.notes.iter().map(|n| n.id.as_str()).collect()
}

#[test]
fn rule2_only_md_txt_markdown_load() {
    let mut loaded: Vec<&str> = ["a.md", "b.txt", "c.markdown", "d.rs", "e.MD", "Makefile", ".md", "x.md.bak"]
        .into_iter()
        .filter(|p| is_note_file(p))
        .collect();
    loaded.sort();
    assert_eq!(loaded, vec!["a.md", "b.txt", "c.markdown"]);
    // `.md` alone is a hidden file named ".md" with no extension.
    assert!(!is_note_file("/dir/.md"));
    assert!(is_note_file("/dir/.hidden.md"));
}

#[test]
fn rule7_load_orders_by_modified_desc() {
    let s = storage(vec![note("old", "old", 1), note("new", "new", 120), note("mid", "", 60)]);
    assert_eq!(ids(&s), vec!["new", "mid", "old"]);
    let same = sort_newest_first(vec![note("a", "", 5), note("b", "", 5), note("c", "", 9)]);
    let order: Vec<&str> = same.iter().map(|n| n.id.as_str()).collect();
    assert_eq!(order, vec!["c", "a", "b"]);
}

#[test]
fn titles_for_creation_and_rename() {
    assert_eq!(creation_title("  hello  "), "hello");
    assert_eq!(creation_title("   "), "Untitled");
    assert_eq!(creation_title("a/b"), "a-b");
    assert_eq!(creation_title(" x/y/z "), "x-y-z");
    assert_eq!(rename_title("   "), "Untitled");
    assert_eq!(rename_title(" x/y "), "x-y");
    assert_eq!(candidate_title("20240919-153012", 0), "20240919-153012");
    assert_eq!(candidate_title("20240919-153012", 1), "20240919-153012-1");
    assert_eq!(candidate_title("20240919-153012", 12), "20240919-153012-12");
}

#[test]
fn taken_titles_ignore_case_and_the_excluded_note() {
    let s = storage(vec![note("Alpha", "", 1), note("beta", "", 2)]);
    assert!(s.title_taken("alpha", None, false));
    assert!(s.title_taken("BETA", None, false));
    assert!(!s.title_taken("gamma", None, false));
    assert!(s.title_taken("gamma", None, true));
    assert!(!s.title_taken("ALPHA", Some("Alpha"), false));
    assert!(s.title_taken("ALPHA", Some("beta"), false));
    assert_eq!(s.note_path("gamma"), "/notes/gamma.md");
    assert_eq!(s.trash_dir(), "/notes/.trash");
}

#[test]
fn created_notes_go_first() {
    let mut s = storage(vec![note("a", "", 1), note("b", "", 2)]);
    s.insert_created(Note::new_at("/notes", "fresh", "md", 0));
    assert_eq!(ids(&s), vec!["fresh", "b", "a"]);
}

#[test]
fn rename_plans() {
    let s = storage(vec![note("old", "body #beta #alpha", 1), note("b", "b", 2)]);
    assert!(matches!(s.rename_plan("ghost", "x"), RenamePlan::UnknownId));
    match s.rename_plan("old", "old") {
        RenamePlan::Unchanged(n) => assert_eq!(n.id, "old"),
        _ => panic!("same name is a no-op"),
    }
    match s.rename_plan("old", " x/y ") {
        RenamePlan::Move { index, want } => {
            assert_eq!(index, 1);
            assert_eq!(want, "x-y");
        }
        _ => panic!("a new name moves the note"),
    }
    match s.rename_plan("b", "   ") {
        RenamePlan::Move { want, .. } => assert_eq!(want, "Untitled"),
        _ => panic!("blank becomes Untitled"),
    }
}

#[test]
fn rename_keeps_content_tags_and_dates() {
    let mut s = storage(vec![note("old", "body #beta #alpha", 1), note("b", "b", 2)]);
    let renamed = s.finish_rename(1, "new", "/notes/new.md");
    assert_eq!(renamed.id, "new");
    assert_eq!(renamed.title, "new");
    assert_eq!(renamed.filepath, "/notes/new.md");
    assert_eq!(renamed.content, "body #beta #alpha");
    assert_eq!(renamed.tags, vec!["alpha", "beta"]);
    assert_eq!(renamed.modified_at, 1);
    assert_eq!(ids(&s), vec!["b", "new"]);
    assert!(s.get_note("old").is_none());
    assert_eq!(s.get_note("new").unwrap().content, "body #beta #alpha");
}

#[test]
fn failed_moves_keep_the_note() {
    let mut s = storage(vec![note("a", "", 3), note("b", "", 3), note("c", "", 1)]);
    assert_eq!(ids(&s), vec!["a", "b", "c"]);
    s.keep_after_failed_move(0);
    assert_eq!(ids(&s), vec!["b", "a", "c"]);
    let removed = s.remove_at(1);
    assert_eq!(removed.id, "a");
    assert_eq!(ids(&s), vec!["b", "c"]);
}

#[test]
fn save_plans_and_finish() {
    let mut s = storage(vec![note("first", "plain #alpha", 10), note("second", "plain", 1)]);
    assert!(matches!(s.save_plan("ghost", "x"), SavePlan::UnknownId));
    assert!(matches!(s.save_plan("first", "plain #alpha"), SavePlan::Unchanged));
    match s.save_plan("second", "updated #beta #alpha #beta") {
        SavePlan::Write { index } => {
            assert_eq!(index, 1);
            assert_eq!(s.notes[1].content, "updated #beta #alpha #beta");
            s.finish_save(index, 50);
        }
        _ => panic!("changed content is written"),
    }
    s.resort();
    assert_eq!(ids(&s), vec!["second", "first"]);
    assert_eq!(s.notes[0].tags, vec!["alpha", "beta"]);
    assert_eq!(s.notes[0].modified_at, 50);
}

#[test]
fn unknown_ids_report_false_without_touching_disk() {
    let mut s = storage(vec![note("only", "content", 1)]);
    assert!(matches!(s.save_plan("ghost", "x"), SavePlan::UnknownId));
    assert!(find_note(&s.notes, "ghost").is_none());
    assert_eq!(s.notes.len(), 1);
}

#[test]
fn trash_names_never_reuse_the_name() {
    assert_eq!(trash_name("a.md", 0), "a.md");
    assert_eq!(trash_name("a.md", 1), "a-trash-2.md");
    assert_eq!(trash_name("a.md", 2), "a-trash-3.md");
    assert_eq!(trash_name("archive.tar.gz", 1), "archive.tar-trash-2.gz");
    assert_eq!(trash_name("Makefile", 1), "Makefile-trash-2");
    assert_eq!(trash_name(".md", 1), "-trash-2.md");
}

#[test]
fn restore_needs_a_new_name_when_retaken() {
    let s = storage(vec![note("a", "replacement", 5)]);
    assert!(s.restore_needs_new_name("a", false));
    assert!(s.restore_needs_new_name("b", true));
    assert!(!s.restore_needs_new_name("b", false));
    let mut s = s;
    s.add_restored(note("b", "x", 9));
    assert_eq!(ids(&s), vec!["b", "a"]);
}

#[test]
fn note_file_names() {
    assert_eq!(note_filename(&note("a", "", 0)), "a.md");
    let mut bare = note("x", "", 0);
    bare.filepath = "/".to_string();
    assert_eq!(note_filename(&bare), "x.md");
}

#[test]
fn free_titles_never_reuse_a_taken_name() {
    let s = storage(vec![note("20240919-1530", "", 1), note("Alpha", "", 2)]);
    let on_disk: HashSet<String> = ["/notes/other.md".to_string()].into_iter().collect();
    let asked = RefCell::new(Vec::new());
    let exists = |p: &str| {
        asked.borrow_mut().push(p.to_string());
        on_disk.contains(p)
    };
    // A free name is kept.
    assert_eq!(s.free_title("fresh".to_string(), None, &exists).unwrap(), "fresh");
    // Taken in memory (any case) or on disk: a timestamp name instead.
    for taken in ["20240919-1530", "alpha", "ALPHA", "other"] {
        let t = s.free_title(taken.to_string(), None, &exists).unwrap();
        assert_ne!(t, taken);
        assert_eq!(t.len(), 15, "timestamp with seconds: {t}");
        assert!(!on_disk.contains(&s.note_path(&t)));
    }
    // The note itself does not count against its own new name.
    assert_eq!(
        s.free_title("20240919-1530".to_string(), Some("20240919-1530"), &exists).unwrap(),
        "20240919-1530"
    );
    assert!(asked.borrow().contains(&"/notes/fresh.md".to_string()));
}

#[test]
fn stamp_titles_skip_taken_ones() {
    let s = storage(vec![]);
    // Every plain timestamp is reported taken: the counter is appended.
    let exists = |p: &str| !p.contains("-1.md") && !p.contains("-2.md");
    let t = s.free_stamp_title(None, &exists).unwrap();
    assert!(t.ends_with("-1") || t.ends_with("-2"), "{t}");
}

#[test]
fn unique_trash_paths() {
    let taken: HashSet<&str> = ["/t/a.md", "/t/a-trash-2.md"].into_iter().collect();
    let exists = |p: &str| taken.contains(p);
    assert_eq!(unique_path("/t", "b.md", &exists).unwrap(), "/t/b.md");
    assert_eq!(unique_path("/t", "a.md", &exists).unwrap(), "/t/a-trash-3.md");
    assert_eq!(unique_path("/t/", "x", &exists).unwrap(), "/t/x");
}

#[test]
fn a_note_saved_last_comes_first() {
    let mut s = storage(vec![note("a", "x", 30), note("b", "y", 20), note("c", "z", 10)]);
    match s.save_plan("c", "changed") {
        SavePlan::Write { index } => s.finish_save(index, 40),
        _ => panic!("changed content is written"),
    }
    s.resort();
    assert_eq!(ids(&s), vec!["c", "a", "b"]);
}

#[test]
fn storage_same_title_creates_notes_without_overwriting() {
    let mut s = storage(vec![]);
    let disk: RefCell<HashSet<String>> = RefCell::new(HashSet::new());
    let create = |s: &mut StorageManager, title: &str| {
        let n = s.note_to_create(title, &|p: &str| disk.borrow().contains(p)).unwrap();
        assert!(disk.borrow_mut().insert(n.filepath.clone()), "{} was overwritten", n.filepath);
        s.insert_created(n.clone());
        n
    };
    let first = create(&mut s, "20240919-1530");
    let second = create(&mut s, "20240919-1530");
    let third = create(&mut s, "20240919-1530");
    assert_eq!(first.title, "20240919-1530");
    assert_ne!(second.title, first.title, "la segunda nota debe desambiguarse con segundos");
    assert_ne!(third.title, first.title);
    assert_ne!(third.title, second.title);
    assert_eq!(s.notes.len(), 3);
    assert_ne!(first.filepath, second.filepath);
    assert_ne!(second.filepath, third.filepath);
}

#[test]
fn creation_never_picks_an_existing_file() {
    let s = storage(vec![]);
    let on_disk: HashSet<String> = ["/notes/a-b.md".to_string()].into_iter().collect();
    let exists = |p: &str| on_disk.contains(p);
    let n = s.note_to_create("a/b", &exists).unwrap();
    assert_ne!(n.title, "a-b");
    assert_eq!(n.title.len(), 15, "timestamp with seconds: {}", n.title);
    assert!(!on_disk.contains(&n.filepath));
    assert_eq!(n.filepath, format!("/notes/{}.md", n.title));
    let free = s.note_to_create(" c/d ", &exists).unwrap();
    assert_eq!(free.title, "c-d");
    assert_eq!(free.id, "c-d");
    assert_eq!(free.filepath, "/notes/c-d.md");
    assert_eq!(free.content, "");
}

#[test]
fn restore_targets_never_reuse_a_taken_name() {
    let entry = Note::from_parts("/notes/.trash/a.md", "hello #x".to_string(), 5, None);
    let nothing = |_: &str| false;
    assert_eq!(storage(vec![]).restore_target(&entry, &nothing).unwrap(), "/notes/a.md");
    // Taken by a loaded note with that id.
    let t = storage(vec![note("a", "other", 9)]).restore_target(&entry, &nothing).unwrap();
    assert_ne!(t, "/notes/a.md");
    assert!(t.starts_with("/notes/") && t.ends_with(".md") && t.len() == "/notes/".len() + 15 + 3, "{t}");
    // Taken on disk.
    let on_disk = |p: &str| p == "/notes/a.md";
    let t = storage(vec![]).restore_target(&entry, &on_disk).unwrap();
    assert_ne!(t, "/notes/a.md");
}

#[test]
fn delete_then_restore_round_trips() {
    let mut s = storage(vec![note("a", "hello #x", 5), note("b", "", 9), note("c", "", 1)]);
    let before = s.notes.len();
    let k = find_note(&s.notes, "a").unwrap();
    let gone = s.remove_at(k);
    assert!(find_note(&s.notes, "a").is_none());
    let entry = Note::from_parts("/notes/.trash/a.md", gone.content.clone(), gone.modified_at, None);
    let target = s.restore_target(&entry, &|_: &str| false).unwrap();
    assert_eq!(target, "/notes/a.md");
    let back = Note::from_parts(&target, gone.content.clone(), gone.modified_at, None);
    s.add_restored(back);
    assert_eq!(s.notes.len(), before);
    assert_eq!(ids(&s), vec!["b", "a", "c"]);
    let m = &s.notes[find_note(&s.notes, "a").unwrap()];
    assert_eq!(m.content, "hello #x");
    assert_eq!(m.tags, vec!["x".to_string()]);
}

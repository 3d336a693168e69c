use chrono::TimeZone;
use nv_core::note::Note;

#[test]
fn rule5_extract_tags_charset() {
    assert_eq!(
        Note::extract_tags("#foo #Foo #foo-bar_1 #! #"),
        vec!["Foo", "foo", "foo-bar_1"]
    );
    assert!(Note::extract_tags("no tags here").is_empty());
}

#[test]
fn tags_are_sorted_deduped_and_match_the_regex() {
    let samples = [
        "  see #beta and #alpha #beta\n\n#with-dash_1 #!",
        "hello #gamma #alpha #gamma",
        "##double #a#b #-x #_ #é #ñandú #Z9 trailing#",
        "",
        "#",
        "a#b c#d",
    ];
    let re = regex::Regex::new(r"#([a-zA-Z0-9_-]+)").unwrap();
    for s in samples {
        let mut expected: Vec<String> = re.captures_iter(s).map(|c| c[1].to_string()).collect();
        expected.sort();
        expected.dedup();
        assert_eq!(Note::extract_tags(s), expected, "tags of {s:?}");
    }
    assert_eq!(
        Note::extract_tags("  see #beta and #alpha #beta\n\n#with-dash_1 #!"),
        vec!["alpha", "beta", "with-dash_1"]
    );
}

#[test]
fn new_note_sanitizes_title_and_builds_path() {
    let note = Note::new_at("/tmp/notes", "a/b", "md", 1_700_000_000_000);
    assert_eq!(note.id, "a-b");
    assert_eq!(note.title, "a-b");
    assert_eq!(note.filepath, "/tmp/notes/a-b.md");
    assert_eq!(note.content, "");
    assert!(note.tags.is_empty());
    assert_eq!(note.modified_at, 1_700_000_000_000);
    assert_eq!(note.created_at, 1_700_000_000_000);
    let note = Note::new_at("/tmp/notes/", "fresh", "txt", 5);
    assert_eq!(note.filepath, "/tmp/notes/fresh.txt");
    let now = Note::new("dir", "x", "md");
    assert_eq!(now.modified_at, now.created_at);
    assert_eq!(now.filepath, "dir/x.md");
}

#[test]
fn from_parts_uses_the_stem_and_reads_tags() {
    let raw = "  see #beta and #alpha #beta\n\n#with-dash_1 #!";
    let note = Note::from_parts("/n/tags.md", raw.to_string(), 10, None);
    assert_eq!(note.id, "tags");
    assert_eq!(note.title, "tags");
    assert_eq!(note.content, raw);
    assert_eq!(note.tags, vec!["alpha", "beta", "with-dash_1"]);
    assert_eq!(note.created_at, 10);
    let note = Note::from_parts("/n/my-note.md", "\n# Hello\nbody text".to_string(), 10, Some(3));
    assert_eq!(note.title, "my-note");
    assert_eq!(note.title, note.id);
    assert_eq!(note.created_at, 3);
    assert_eq!(Note::from_parts("/n/archive.tar.gz", String::new(), 0, None).id, "archive.tar");
    assert_eq!(Note::from_parts("/n/.hidden", String::new(), 0, None).id, ".hidden");
    assert_eq!(Note::from_parts("/", String::new(), 0, None).id, "Untitled");
    assert_eq!(Note::from_parts("/n/..", String::new(), 0, None).id, "Untitled");
}

#[test]
fn record_save_refreshes_date_and_tags() {
    let mut note = Note::new_at("/d", "fresh", "md", 1);
    note.content = "hello #gamma #alpha #gamma".to_string();
    note.record_save(99);
    assert_eq!(note.tags, vec!["alpha", "gamma"]);
    assert_eq!(note.modified_at, 99);
    assert_eq!(note.created_at, 1);
    assert_eq!(note.id, "fresh");
}

#[test]
fn formatted_dates_use_local_time() {
    let note = Note::new_at("/d", "x", "md", 1_700_000_000_000);
    let expected = chrono::Local
        .timestamp_millis_opt(1_700_000_000_000)
        .unwrap()
        .format("%Y-%m-%d %H:%M")
        .to_string();
    assert_eq!(note.formatted_date(), expected);
    assert_eq!(note.formatted_created_date(), expected);
}

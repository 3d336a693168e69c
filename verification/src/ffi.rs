//! The plain records that cross to other languages: a note's snapshot and
//! the errors a caller can observe.
use vstd::prelude::*;
use crate::note::{copy_string, copy_strings, texts, Note};
use crate::search::{search_ids, search_notes};
use crate::storage::{find_note, first_with_id, note_view, NoteView, StorageManager};
use crate::text::{chars_of, is_blank, string_of, trim};

verus! {

/// A note as other languages see it: identity, raw content, derived tags and
/// the file dates as unix milliseconds.
#[derive(Clone, Debug)]
pub struct NoteSnapshot {
    pub id: String,
    pub title: String,
    pub content: String,
    pub tags: Vec<String>,
    pub modified_ms: i64,
    pub created_ms: i64,
}

/// The plain values of a snapshot, in the order of a note's.
pub open spec fn snapshot_view(s: NoteSnapshot) -> (Seq<char>, Seq<char>, Seq<char>, Seq<Seq<char>>, i64, i64) {
    (s.id@, s.title@, s.content@, texts(s.tags@), s.modified_ms, s.created_ms)
}

/// What a snapshot of a note holds.
pub open spec fn snapshot_of_view(n: NoteView) -> (Seq<char>, Seq<char>, Seq<char>, Seq<Seq<char>>, i64, i64) {
    (n.0, n.1, n.3, n.6, n.4, n.5)
}

/// `s` is the snapshot of the first note with id `id`.
pub open spec fn snapshot_of_id(notes: Seq<Note>, id: Seq<char>, s: NoteSnapshot) -> bool {
    match first_with_id(notes, id) {
        Some(i) => 0 <= i < notes.len() && snapshot_view(s) == snapshot_of_view(note_view(notes[i])),
        None => false,
    }
}

/// Failures a caller in another language can observe.
#[derive(Debug)]
pub enum NvError {
    NotFound(String),
    InvalidPath(String),
    Io(String),
}

/// The message of an error: `note not found: <id>`, `invalid notes dir:
/// <dir>` or `i/o error: <message>`.
pub open spec fn error_message(e: NvError) -> Seq<char> {
    match e {
        NvError::NotFound(id) => seq!['n', 'o', 't', 'e', ' ', 'n', 'o', 't', ' ', 'f', 'o', 'u', 'n', 'd', ':', ' '] + id@,
        NvError::InvalidPath(dir) => seq!['i', 'n', 'v', 'a', 'l', 'i', 'd', ' ', 'n', 'o', 't', 'e', 's', ' ', 'd', 'i', 'r', ':', ' '] + dir@,
        NvError::Io(msg) => seq!['i', '/', 'o', ' ', 'e', 'r', 'r', 'o', 'r', ':', ' '] + msg@,
    }
}

fn prefixed(prefix: &[char], rest: &String) -> (r: String)
    ensures
        r@ == prefix@ + rest@,
{
    let mut v: Vec<char> = Vec::new();
    v.extend_from_slice(prefix);
    let mut tail = chars_of(rest.as_str());
    v.append(&mut tail);
    string_of(v.as_slice())
}

impl NvError {
    /// The error as text (see `error_message`).
    pub fn message(&self) -> (r: String)
        ensures
            r@ == error_message(*self),
    {
        match self {
            NvError::NotFound(id) => {
                let p: [char; 16] = ['n', 'o', 't', 'e', ' ', 'n', 'o', 't', ' ', 'f', 'o', 'u', 'n', 'd', ':', ' '];
                assert(p@ =~= seq!['n', 'o', 't', 'e', ' ', 'n', 'o', 't', ' ', 'f', 'o', 'u', 'n', 'd', ':', ' ']);
                prefixed(&p, id)
            },
            NvError::InvalidPath(dir) => {
                let p: [char; 19] = ['i', 'n', 'v', 'a', 'l', 'i', 'd', ' ', 'n', 'o', 't', 'e', 's', ' ', 'd', 'i', 'r', ':', ' '];
                assert(p@ =~= seq!['i', 'n', 'v', 'a', 'l', 'i', 'd', ' ', 'n', 'o', 't', 'e', 's', ' ', 'd', 'i', 'r', ':', ' ']);
                prefixed(&p, dir)
            },
            NvError::Io(msg) => {
                let p: [char; 11] = ['i', '/', 'o', ' ', 'e', 'r', 'r', 'o', 'r', ':', ' '];
                assert(p@ =~= seq!['i', '/', 'o', ' ', 'e', 'r', 'r', 'o', 'r', ':', ' ']);
                prefixed(&p, msg)
            },
        }
    }

    /// Whether this is the `Io` variant.
    pub fn is_io(&self) -> (r: bool)
        ensures
            r == (*self is Io),
    {
        match self {
            NvError::Io(_) => true,
            _ => false,
        }
    }
}

/// The text of an I/O error (its `Display`). It comes from the operating
/// system; nothing is stated of it.
#[verifier::external_body]
fn io_error_text(e: &std::io::Error) -> (r: String) {
    e.to_string()
}

#[verifier::external_type_specification]
#[verifier::external_body]
pub struct ExIoError(std::io::Error);

impl From<std::io::Error> for NvError {
    /// An I/O failure, with the error's text.
    fn from(e: std::io::Error) -> (r: NvError) {
        NvError::Io(io_error_text(&e))
    }
}

impl vstd::std_specs::convert::FromSpecImpl<std::io::Error> for NvError {
    /// The text of an I/O error is the operating system's: the conversion
    /// promises no particular value.
    open spec fn obeys_from_spec() -> bool {
        false
    }

    open spec fn from_spec(e: std::io::Error) -> NvError {
        vstd::pervasive::arbitrary()
    }
}

/// The snapshot of a note: its id, title, content, tags and dates.
pub fn snapshot_of(note: &Note) -> (r: NoteSnapshot)
    ensures
        snapshot_view(r) == snapshot_of_view(note_view(*note)),
{
    NoteSnapshot {
        id: copy_string(&note.id),
        title: copy_string(&note.title),
        content: copy_string(&note.content),
        tags: copy_strings(&note.tags),
        modified_ms: note.modified_at,
        created_ms: note.created_at,
    }
}

/// Snapshots of every note, in list order.
pub fn list_snapshots(notes: &[Note]) -> (r: Vec<NoteSnapshot>)
    ensures
        r@.len() == notes@.len(),
        forall|k: int|
            0 <= k < notes@.len() ==> snapshot_view(#[trigger] r@[k]) == snapshot_of_view(
                note_view(notes@[k]),
            ),
{
    let mut r: Vec<NoteSnapshot> = Vec::new();
    let mut k: usize = 0;
    while k < notes.len()
        invariant
            k <= notes@.len(),
            r@.len() == k,
            forall|j: int|
                0 <= j < k ==> snapshot_view(#[trigger] r@[j]) == snapshot_of_view(
                    note_view(notes@[j]),
                ),
        decreases notes@.len() - k,
    {
        r.push(snapshot_of(&notes[k]));
        k += 1;
    }
    r
}

/// The snapshot of the note `id`, or `NotFound(id)`.
pub fn snapshot_by_id(notes: &[Note], id: String) -> (r: Result<NoteSnapshot, NvError>)
    ensures
        match r {
            Ok(s) => first_with_id(notes@, id@) matches Some(k) && snapshot_view(s)
                == snapshot_of_view(note_view(notes@[k])),
            Err(e) => first_with_id(notes@, id@) is None && (e matches NvError::NotFound(x)
                && x@ == id@),
        },
{
    match find_note(notes, id.as_str()) {
        Some(k) => Ok(snapshot_of(&notes[k])),
        None => Err(NvError::NotFound(id)),
    }
}

/// The snapshots of the notes matching `query`, best first (see
/// `search_notes`): each id found is looked up again, as a caller holding
/// only ids would.
pub fn search_snapshots(notes: &[Note], query: &str) -> (r: Vec<NoteSnapshot>)
    ensures
        r@.len() == search_ids(notes@, query@).len(),
        forall|k: int|
            0 <= k < r@.len() ==> snapshot_of_id(notes@, search_ids(notes@, query@)[k], #[trigger] r@[k]),
{
    let ids = search_notes(notes, query);
    let ghost found = search_ids(notes@, query@);
    let mut r: Vec<NoteSnapshot> = Vec::new();
    let mut k: usize = 0;
    while k < ids.len()
        invariant
            k <= ids@.len(),
            ids@.map_values(|s: String| s@) == found,
            found == search_ids(notes@, query@),
            r@.len() == k,
            forall|j: int|
                0 <= j < k ==> snapshot_of_id(notes@, found[j], #[trigger] r@[j]),
        decreases ids@.len() - k,
    {
        assert(found[k as int] == ids@[k as int]@);
        let i = match find_note(notes, ids[k].as_str()) {
            Some(i) => i,
            None => {
                proof {
                    lemma_search_ids_known(notes@, query@, k as int);
                }
                assert(false);
                0
            },
        };
        let ghost before = r@;
        r.push(snapshot_of(&notes[i]));
        proof {
            assert forall|j: int| 0 <= j < k + 1 implies snapshot_of_id(notes@, found[j], #[trigger] r@[j]) by {
                if j < k {
                    assert(r@[j] == before[j]);
                } else {
                    assert(first_with_id(notes@, found[j]) == Some(i as int));
                }
            }
        }
        k += 1;
    }
    r
}

/// Every id that a search returns is the id of one of the notes searched.
pub proof fn lemma_search_ids_known(notes: Seq<Note>, query: Seq<char>, k: int)
    requires
        0 <= k < search_ids(notes, query).len(),
    ensures
        first_with_id(notes, search_ids(notes, query)[k]) is Some,
{
    crate::search::lemma_search_ids_are_note_ids(notes, query, k);
    let id = search_ids(notes, query)[k];
    let j = choose|j: int| 0 <= j < notes.len() && notes[j].id@ == id;
    crate::storage::lemma_first_with_id(notes, id, 0);
}

/// Opening a notes directory given as text: a blank path is refused.
pub fn check_notes_dir(dir: String) -> (r: Result<String, NvError>)
    ensures
        match r {
            Ok(d) => trim(dir@).len() > 0 && d@ == dir@,
            Err(e) => trim(dir@).len() == 0 && (e matches NvError::InvalidPath(x) && x@ == dir@),
        },
{
    if is_blank(dir.as_str()) {
        Err(NvError::InvalidPath(dir))
    } else {
        Ok(dir)
    }
}

} // verus!
